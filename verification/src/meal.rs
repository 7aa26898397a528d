//! Meals: named bundles of product quantities with a serving multiplier, and
//! what they contribute.

use vstd::prelude::*;
use crate::amount::Amount;
use crate::catalog::{Catalog, ProductView};
use crate::nutrients::{
    contribution, lemma_bounded_terms_fit, lemma_contribution_bound, lemma_sum_bound, running_fits,
    sum, term_bound, Intake, Nutrients,
};

verus! {

/// A quantity of a product, named by the product's name.
#[derive(Debug, PartialEq, Eq)]
pub struct MealItem {
    pub product: String,
    pub quantity: Amount,
}

impl MealItem {
    /// The item of `quantity` units of the product named `product`.
    pub fn new(product: &str, quantity: Amount) -> (item: MealItem)
        ensures
            item.product@ == product@,
            item.quantity == quantity,
    {
        MealItem { product: product.to_owned(), quantity }
    }
}

impl Clone for MealItem {
    fn clone(&self) -> (copy: Self)
        ensures
            copy.product@ == self.product@,
            copy.quantity == self.quantity,
    {
        MealItem { product: self.product.clone(), quantity: self.quantity }
    }
}

/// The items as pairs of a product's name and a quantity.
pub open spec fn items_view(items: Seq<MealItem>) -> Seq<(Seq<char>, Amount)> {
    Seq::new(items.len(), |i: int| (items[i].product@, items[i].quantity))
}

/// A copy of `items`.
pub fn clone_items(items: &Vec<MealItem>) -> (copy: Vec<MealItem>)
    ensures
        items_view(copy@) == items_view(items@),
{
    let mut copy: Vec<MealItem> = Vec::new();
    let mut i: usize = 0;
    while i < items.len()
        invariant
            i <= items.len(),
            copy@.len() == i,
            forall|j: int| 0 <= j < i ==> (#[trigger] copy@[j]).product@ == items@[j].product@
                && copy@[j].quantity == items@[j].quantity,
        decreases items.len() - i,
    {
        let item = items[i].clone();
        copy.push(item);
        i += 1;
    }
    assert(items_view(copy@) =~= items_view(items@));
    copy
}

/// A meal as a mathematical value.
pub struct MealView {
    pub name: Seq<char>,
    pub items: Seq<(Seq<char>, Amount)>,
    pub servings: Amount,
}

/// The product that `catalog` holds under `name`, if any.
pub open spec fn product_of(catalog: Map<Seq<char>, ProductView>, name: Seq<char>) -> Option<
    ProductView,
> {
    if catalog.contains_key(name) {
        Some(catalog[name])
    } else {
        None
    }
}

/// What each item of `meal` contributes, in the order of the items: the
/// values of the item's product in `catalog`, times the item's quantity,
/// times the meal's servings; nothing for a product that `catalog` lacks.
pub open spec fn meal_terms(meal: MealView, catalog: Map<Seq<char>, ProductView>) -> Seq<Intake> {
    Seq::new(
        meal.items.len(),
        |i: int| contribution(product_of(catalog, meal.items[i].0), meal.items[i].1, meal.servings),
    )
}

/// What `meal` contributes in all: the sum of what its items contribute.
pub open spec fn meal_total(meal: MealView, catalog: Map<Seq<char>, ProductView>) -> Intake {
    sum(meal_terms(meal, catalog))
}

/// The servings of a meal made with `servings`: a multiplier that is not
/// positive counts as 1.
pub open spec fn normal_servings(servings: Amount) -> Amount {
    if servings.millis > 0 {
        servings
    } else {
        Amount { millis: 1000 }
    }
}

/// A meal of a single item contributes each value of the item's product
/// times the quantity times the servings.
pub proof fn lemma_single_item_total(
    meal: MealView,
    catalog: Map<Seq<char>, ProductView>,
    product: ProductView,
)
    requires
        meal.items.len() == 1,
        catalog.contains_key(meal.items[0].0),
        catalog[meal.items[0].0] == product,
    ensures
        meal_total(meal, catalog) == (Intake {
            calories: product.calories.value() * meal.items[0].1.value() * meal.servings.value(),
            proteins: product.proteins.value() * meal.items[0].1.value() * meal.servings.value(),
            minerals: product.minerals.value() * meal.items[0].1.value() * meal.servings.value(),
        }),
{
    let terms = meal_terms(meal, catalog);
    assert(terms.drop_last() =~= Seq::<Intake>::empty());
    assert(sum(terms.drop_last()) == Intake::zero());
    assert(sum(terms) == sum(terms.drop_last()).plus(terms.last()));
}

/// A meal of at most 2^33 items has a total that can be computed term by
/// term in `i128`.
pub proof fn lemma_meal_fits(meal: MealView, catalog: Map<Seq<char>, ProductView>)
    requires
        meal.items.len() <= 0x2_0000_0000,
    ensures
        running_fits(meal_terms(meal, catalog)),
        meal_total(meal, catalog).within(meal.items.len() * term_bound()),
{
    let terms = meal_terms(meal, catalog);
    assert forall|i: int| 0 <= i < terms.len() implies (#[trigger] terms[i]).within(term_bound()) by {
        lemma_contribution_bound(
            product_of(catalog, meal.items[i].0),
            meal.items[i].1,
            meal.servings,
        );
    }
    lemma_bounded_terms_fit(terms);
    lemma_sum_bound(terms, term_bound());
}

/// A named bundle of product quantities with a serving multiplier, which is
/// always positive.
#[derive(Debug, PartialEq, Eq)]
pub struct Meal {
    name: String,
    items: Vec<MealItem>,
    servings: Amount,
}

impl View for Meal {
    type V = MealView;

    closed spec fn view(&self) -> MealView {
        MealView { name: self.name@, items: items_view(self.items@), servings: self.servings }
    }
}

impl Clone for Meal {
    fn clone(&self) -> (copy: Self)
        ensures
            copy@ == self@,
    {
        proof {
            use_type_invariant(self);
        }
        Meal { name: self.name.clone(), items: clone_items(&self.items), servings: self.servings }
    }
}

impl Meal {
    #[verifier::type_invariant]
    spec fn positive_servings(self) -> bool {
        self.servings.millis > 0
    }

    /// The meal named `name`, of `items`, with the multiplier `servings`, or
    /// 1 where `servings` is not positive.
    pub fn new(name: &str, items: Vec<MealItem>, servings: Amount) -> (meal: Meal)
        ensures
            meal@ == (MealView {
                name: name@,
                items: items_view(items@),
                servings: normal_servings(servings),
            }),
    {
        let servings = if servings.is_positive() {
            servings
        } else {
            Amount::one()
        };
        Meal { name: name.to_owned(), items, servings }
    }

    /// The meal's name.
    pub fn name(&self) -> (name: &str)
        ensures
            name@ == self@.name,
    {
        self.name.as_str()
    }

    /// The serving multiplier, which is positive.
    pub fn servings(&self) -> (servings: Amount)
        ensures
            servings == self@.servings,
            servings.millis > 0,
    {
        proof {
            use_type_invariant(self);
        }
        self.servings
    }

    /// The number of items.
    pub fn len(&self) -> (n: usize)
        ensures
            n == self@.items.len(),
    {
        self.items.len()
    }

    /// The item at place `i`.
    pub fn item(&self, i: usize) -> (item: &MealItem)
        requires
            i < self@.items.len(),
        ensures
            (item.product@, item.quantity) == self@.items[i as int],
    {
        &self.items[i]
    }

    /// What the item at place `i` contributes: each value of its product in
    /// `catalog` times its quantity times the servings, and nothing where
    /// `catalog` lacks the product.
    pub fn item_contribution(&self, i: usize, catalog: &Catalog) -> (n: Nutrients)
        requires
            catalog.wf(),
            i < self@.items.len(),
        ensures
            n@ == meal_terms(self@, catalog@)[i as int],
    {
        let item = &self.items[i];
        let product = catalog.lookup(item.product.as_str());
        Nutrients::of_item(product, item.quantity, self.servings)
    }

    /// What the meal contributes: the sum of what its items contribute.
    ///
    /// The sum is computed item by item; the result is `None` when the sum
    /// up to some item is beyond `i128`, which no meal of at most 2^33 items
    /// reaches.
    pub fn total(&self, catalog: &Catalog) -> (r: Option<Nutrients>)
        requires
            catalog.wf(),
        ensures
            running_fits(meal_terms(self@, catalog@)) ==> (r matches Some(n) && n@ == meal_total(
                self@,
                catalog@,
            )),
            !running_fits(meal_terms(self@, catalog@)) ==> r is None,
            self@.items.len() <= 0x2_0000_0000 ==> r is Some,
    {
        let ghost terms = meal_terms(self@, catalog@);
        let mut acc = Nutrients::zero();
        let mut i: usize = 0;
        assert(terms.take(0) =~= Seq::<Intake>::empty());
        while i < self.items.len()
            invariant
                i <= self.items.len(),
                catalog.wf(),
                terms == meal_terms(self@, catalog@),
                terms.len() == self.items.len(),
                acc@ == sum(terms.take(i as int)),
                forall|k: int| 0 <= k <= i ==> (#[trigger] sum(terms.take(k))).fits(),
            decreases self.items.len() - i,
        {
            let term = self.item_contribution(i, catalog);
            proof {
                assert(terms.take(i + 1).drop_last() =~= terms.take(i as int));
                assert(terms.take(i + 1).last() == terms[i as int]);
            }
            match acc.checked_plus(&term) {
                Some(next) => {
                    acc = next;
                },
                None => {
                    proof {
                        assert(!sum(terms.take(i + 1)).fits());
                        if self@.items.len() <= 0x2_0000_0000 {
                            lemma_meal_fits(self@, catalog@);
                        }
                    }
                    return None;
                },
            }
            i += 1;
        }
        proof {
            assert(terms.take(terms.len() as int) =~= terms);
        }
        Some(acc)
    }

    /// The calories that the meal contributes, where `total` gives a
    /// result.
    pub fn total_calories(&self, catalog: &Catalog) -> (r: Option<i128>)
        requires
            catalog.wf(),
        ensures
            running_fits(meal_terms(self@, catalog@)) ==> r == Some(
                meal_total(self@, catalog@).calories as i128,
            ) && i128::MIN <= meal_total(self@, catalog@).calories <= i128::MAX,
            !running_fits(meal_terms(self@, catalog@)) ==> r is None,
    {
        match self.total(catalog) {
            Some(n) => Some(n.calories),
            None => None,
        }
    }
}

/// The meals defined for reuse, in the order in which they were added.
pub struct Composer {
    meals: Vec<Meal>,
}

/// The meals as mathematical values.
pub open spec fn meals_view(meals: Seq<Meal>) -> Seq<MealView> {
    Seq::new(meals.len(), |i: int| meals[i]@)
}

/// A copy of `meals`.
pub fn clone_meals(meals: &Vec<Meal>) -> (copy: Vec<Meal>)
    ensures
        meals_view(copy@) == meals_view(meals@),
{
    let mut copy: Vec<Meal> = Vec::new();
    let mut i: usize = 0;
    while i < meals.len()
        invariant
            i <= meals.len(),
            copy@.len() == i,
            forall|j: int| 0 <= j < i ==> (#[trigger] copy@[j])@ == meals@[j]@,
        decreases meals.len() - i,
    {
        let meal = meals[i].clone();
        copy.push(meal);
        i += 1;
    }
    assert(meals_view(copy@) =~= meals_view(meals@));
    copy
}

impl View for Composer {
    type V = Seq<MealView>;

    closed spec fn view(&self) -> Seq<MealView> {
        meals_view(self.meals@)
    }
}

impl Composer {
    /// A composer without meals.
    pub fn new() -> (composer: Composer)
        ensures
            composer@ == Seq::<MealView>::empty(),
    {
        let composer = Composer { meals: Vec::new() };
        assert(composer@ =~= Seq::empty());
        composer
    }

    /// The number of meals.
    pub fn len(&self) -> (n: usize)
        ensures
            n == self@.len(),
    {
        self.meals.len()
    }

    /// The meal at place `i`.
    pub fn meal(&self, i: usize) -> (meal: &Meal)
        requires
            i < self@.len(),
        ensures
            meal@ == self@[i as int],
    {
        &self.meals[i]
    }

    /// Puts `meal` after the meals that are there.
    pub fn push(&mut self, meal: Meal)
        ensures
            final(self)@ == old(self)@.push(meal@),
    {
        self.meals.push(meal);
        assert(self@ =~= old(self)@.push(meal@));
    }

    /// Makes the meal named `name`, of `items`, with the multiplier
    /// `servings`, or 1 where `servings` is not positive, and puts it after
    /// the meals that are there, whatever their names.
    pub fn add_meal(&mut self, name: &str, items: Vec<MealItem>, servings: Amount)
        ensures
            final(self)@ == old(self)@.push(
                MealView {
                    name: name@,
                    items: items_view(items@),
                    servings: normal_servings(servings),
                },
            ),
    {
        self.push(Meal::new(name, items, servings));
    }
}

} // verus!
