//! Daily logs: the meals that a user logged on a date, and their totals.

use vstd::prelude::*;
use crate::catalog::{Catalog, ProductView};
use crate::date::Date;
use crate::meal::{
    clone_meals, lemma_meal_fits, meal_terms, meal_total, meals_view, product_of, Meal, MealView,
};
use crate::nutrients::{
    lemma_contribution_bound, lemma_sum_bound, lemma_sum_concat, running_fits, sum, term_bound,
    Intake, Nutrients,
};

verus! {

/// What every item of every meal of a day contributes, meal after meal and
/// item after item.
pub open spec fn day_terms(meals: Seq<MealView>, catalog: Map<Seq<char>, ProductView>) -> Seq<Intake>
    decreases meals.len(),
{
    if meals.len() == 0 {
        Seq::empty()
    } else {
        day_terms(meals.drop_last(), catalog) + meal_terms(meals.last(), catalog)
    }
}

/// The intake of a day: the sum of what every item of every meal
/// contributes, each product looked up in `catalog`.
pub open spec fn day_total(meals: Seq<MealView>, catalog: Map<Seq<char>, ProductView>) -> Intake {
    sum(day_terms(meals, catalog))
}

/// The total of each meal, computed for that meal alone.
pub open spec fn meal_totals(meals: Seq<MealView>, catalog: Map<Seq<char>, ProductView>) -> Seq<
    Intake,
> {
    Seq::new(meals.len(), |i: int| meal_total(meals[i], catalog))
}

/// The number of items in all the meals.
pub open spec fn item_count(meals: Seq<MealView>) -> nat
    decreases meals.len(),
{
    if meals.len() == 0 {
        0
    } else {
        item_count(meals.drop_last()) + meals.last().items.len()
    }
}

/// Whether the intake of a day can be computed in `i128`, meal by meal and
/// item by item: each meal's total can, and so can the sum of the totals.
pub open spec fn day_fits(meals: Seq<MealView>, catalog: Map<Seq<char>, ProductView>) -> bool {
    &&& forall|i: int| 0 <= i < meals.len() ==> running_fits(meal_terms(#[trigger] meals[i], catalog))
    &&& running_fits(meal_totals(meals, catalog))
}

/// The intake of a day is the sum of the totals of its meals, each computed
/// for that meal alone.
pub proof fn lemma_day_total_by_meal(meals: Seq<MealView>, catalog: Map<Seq<char>, ProductView>)
    ensures
        day_total(meals, catalog) == sum(meal_totals(meals, catalog)),
    decreases meals.len(),
{
    if meals.len() > 0 {
        let front = meals.drop_last();
        lemma_day_total_by_meal(front, catalog);
        lemma_sum_concat(day_terms(front, catalog), meal_terms(meals.last(), catalog));
        assert(meal_totals(meals, catalog).drop_last() =~= meal_totals(front, catalog));
    }
}

/// The contributions of a day are as many as its items, and each is at most
/// `term_bound()` in magnitude.
pub proof fn lemma_day_terms(meals: Seq<MealView>, catalog: Map<Seq<char>, ProductView>)
    ensures
        day_terms(meals, catalog).len() == item_count(meals),
        forall|i: int|
            0 <= i < day_terms(meals, catalog).len() ==> (#[trigger] day_terms(
                meals,
                catalog,
            )[i]).within(term_bound()),
    decreases meals.len(),
{
    if meals.len() > 0 {
        let front = meals.drop_last();
        let meal = meals.last();
        lemma_day_terms(front, catalog);
        let terms = day_terms(meals, catalog);
        let before = day_terms(front, catalog);
        assert forall|i: int| 0 <= i < terms.len() implies (#[trigger] terms[i]).within(
            term_bound(),
        ) by {
            if i < before.len() {
                assert(terms[i] == before[i]);
            } else {
                let j = i - before.len();
                assert(terms[i] == meal_terms(meal, catalog)[j]);
                lemma_contribution_bound(
                    product_of(catalog, meal.items[j].0),
                    meal.items[j].1,
                    meal.servings,
                );
            }
        }
    }
}

/// A prefix of the meals has no more items than all of them.
pub proof fn lemma_item_count_prefix(meals: Seq<MealView>, k: int)
    requires
        0 <= k <= meals.len(),
    ensures
        item_count(meals.take(k)) <= item_count(meals),
    decreases meals.len() - k,
{
    if k == meals.len() {
        assert(meals.take(k) =~= meals);
    } else {
        lemma_item_count_prefix(meals, k + 1);
        assert(meals.take(k + 1).drop_last() =~= meals.take(k));
    }
}

/// A day of at most 2^33 items in all has an intake that can be computed in
/// `i128`.
pub proof fn lemma_day_fits(meals: Seq<MealView>, catalog: Map<Seq<char>, ProductView>)
    requires
        item_count(meals) <= 0x2_0000_0000,
    ensures
        day_fits(meals, catalog),
{
    assert forall|i: int| 0 <= i < meals.len() implies running_fits(
        meal_terms(#[trigger] meals[i], catalog),
    ) by {
        lemma_item_count_prefix(meals, i + 1);
        assert(meals.take(i + 1).last() == meals[i]);
        lemma_meal_fits(meals[i], catalog);
    }
    let totals = meal_totals(meals, catalog);
    assert forall|k: int| 0 <= k <= totals.len() implies (#[trigger] sum(totals.take(k))).fits() by {
        let prefix = meals.take(k);
        assert(totals.take(k) =~= meal_totals(prefix, catalog));
        lemma_day_total_by_meal(prefix, catalog);
        lemma_day_terms(prefix, catalog);
        lemma_item_count_prefix(meals, k);
        lemma_sum_bound(day_terms(prefix, catalog), term_bound());
        assert(item_count(prefix) * term_bound() <= 0x2_0000_0000 * term_bound())
            by (nonlinear_arith)
            requires
                item_count(prefix) <= 0x2_0000_0000,
                term_bound() >= 0,
        ;
    }
}

/// The meals logged on one date, in the order in which they were logged.
#[derive(Debug, PartialEq, Eq)]
pub struct DailyLog {
    date: Date,
    meals: Vec<Meal>,
}

/// A daily log as a mathematical value.
pub struct DailyLogView {
    pub date: Date,
    pub meals: Seq<MealView>,
}

impl View for DailyLog {
    type V = DailyLogView;

    closed spec fn view(&self) -> DailyLogView {
        DailyLogView { date: self.date, meals: meals_view(self.meals@) }
    }
}

impl Clone for DailyLog {
    fn clone(&self) -> (copy: Self)
        ensures
            copy@ == self@,
    {
        DailyLog { date: self.date, meals: clone_meals(&self.meals) }
    }
}

impl DailyLog {
    /// The log of `date` without meals.
    pub fn new(date: Date) -> (log: DailyLog)
        ensures
            log@ == (DailyLogView { date, meals: Seq::empty() }),
    {
        let log = DailyLog { date, meals: Vec::new() };
        assert(log@.meals =~= Seq::empty());
        log
    }

    /// The date of the log.
    pub fn date(&self) -> (date: Date)
        ensures
            date == self@.date,
    {
        self.date
    }

    /// The number of meals.
    pub fn len(&self) -> (n: usize)
        ensures
            n == self@.meals.len(),
    {
        self.meals.len()
    }

    /// The meal at place `i`.
    pub fn meal(&self, i: usize) -> (meal: &Meal)
        requires
            i < self@.meals.len(),
        ensures
            meal@ == self@.meals[i as int],
    {
        &self.meals[i]
    }

    /// Puts `meal` after the meals that are there.
    pub fn push(&mut self, meal: Meal)
        ensures
            final(self)@ == (DailyLogView {
                date: old(self)@.date,
                meals: old(self)@.meals.push(meal@),
            }),
    {
        self.meals.push(meal);
        assert(self@.meals =~= old(self)@.meals.push(meal@));
    }

    /// The intake of the day: the sum of what every item of every meal
    /// contributes, each product looked up in `catalog` as it is now.
    ///
    /// Each meal's total is computed for that meal alone, then the totals
    /// are summed; the result is `None` when one of these sums goes beyond
    /// `i128`, which no day of at most 2^33 items reaches.
    pub fn aggregate(&self, catalog: &Catalog) -> (r: Option<Nutrients>)
        requires
            catalog.wf(),
        ensures
            day_fits(self@.meals, catalog@) ==> (r matches Some(n) && n@ == day_total(
                self@.meals,
                catalog@,
            )),
            !day_fits(self@.meals, catalog@) ==> r is None,
            item_count(self@.meals) <= 0x2_0000_0000 ==> r is Some,
    {
        let ghost meals = self@.meals;
        let ghost totals = meal_totals(meals, catalog@);
        proof {
            if item_count(meals) <= 0x2_0000_0000 {
                lemma_day_fits(meals, catalog@);
            }
            lemma_day_total_by_meal(meals, catalog@);
            assert(totals.take(0) =~= Seq::<Intake>::empty());
        }
        let mut acc = Nutrients::zero();
        let mut i: usize = 0;
        while i < self.meals.len()
            invariant
                i <= self.meals.len(),
                catalog.wf(),
                meals == self@.meals,
                meals.len() == self.meals.len(),
                totals == meal_totals(meals, catalog@),
                item_count(meals) <= 0x2_0000_0000 ==> day_fits(meals, catalog@),
                acc@ == sum(totals.take(i as int)),
                forall|k: int| 0 <= k <= i ==> (#[trigger] sum(totals.take(k))).fits(),
                forall|j: int| 0 <= j < i ==> running_fits(meal_terms(#[trigger] meals[j], catalog@)),
            decreases self.meals.len() - i,
        {
            assert(self.meals[i as int]@ == meals[i as int]);
            let total = match self.meals[i].total(catalog) {
                Some(t) => t,
                None => {
                    return None;
                },
            };
            proof {
                assert(totals.take(i + 1).drop_last() =~= totals.take(i as int));
                assert(totals.take(i + 1).last() == totals[i as int]);
            }
            match acc.checked_plus(&total) {
                Some(next) => {
                    acc = next;
                },
                None => {
                    assert(!sum(totals.take(i + 1)).fits());
                    return None;
                },
            }
            i += 1;
        }
        proof {
            assert(totals.take(totals.len() as int) =~= totals);
        }
        Some(acc)
    }

    /// The calories of the day, where `aggregate` gives a result.
    pub fn total_calories(&self, catalog: &Catalog) -> (r: Option<i128>)
        requires
            catalog.wf(),
        ensures
            day_fits(self@.meals, catalog@) ==> r == Some(
                day_total(self@.meals, catalog@).calories as i128,
            ) && i128::MIN <= day_total(self@.meals, catalog@).calories <= i128::MAX,
            !day_fits(self@.meals, catalog@) ==> r is None,
    {
        match self.aggregate(catalog) {
            Some(n) => Some(n.calories),
            None => None,
        }
    }

    /// The proteins and the minerals of the day, where `aggregate` gives a
    /// result.
    pub fn total_nutrients(&self, catalog: &Catalog) -> (r: Option<(i128, i128)>)
        requires
            catalog.wf(),
        ensures
            day_fits(self@.meals, catalog@) ==> r == Some(
                (
                    day_total(self@.meals, catalog@).proteins as i128,
                    day_total(self@.meals, catalog@).minerals as i128,
                ),
            ) && i128::MIN <= day_total(self@.meals, catalog@).proteins <= i128::MAX && i128::MIN
                <= day_total(self@.meals, catalog@).minerals <= i128::MAX,
            !day_fits(self@.meals, catalog@) ==> r is None,
    {
        match self.aggregate(catalog) {
            Some(n) => Some((n.proteins, n.minerals)),
            None => None,
        }
    }
}

} // verus!
