use diet_manager::amount::Amount;
use diet_manager::catalog::Catalog;
use diet_manager::daily_log::DailyLog;
use diet_manager::date::Date;
use diet_manager::meal::{Composer, Meal, MealItem};
use diet_manager::nutrients::Nutrients;

const UNIT: i128 = 1_000_000_000;

fn amount(text: &str) -> Amount {
    Amount::parse(text).unwrap()
}

fn sample_catalog() -> Catalog {
    let mut catalog = Catalog::new();
    catalog.add_product("egg", "g", amount("155"), amount("13"), amount("1"));
    catalog.add_product("toast", "slice", amount("75.5"), amount("2.6"), amount("0.4"));
    catalog
}

#[test]
fn egg_meal_totals() {
    let catalog = sample_catalog();
    let meal = Meal::new("breakfast", vec![MealItem::new("egg", amount("2"))], amount("1"));
    let total = meal.total(&catalog).unwrap();
    assert_eq!(total.calories, 310 * UNIT);
    assert_eq!(total.proteins, 26 * UNIT);
    assert_eq!(total.minerals, 2 * UNIT);
    assert_eq!(meal.total_calories(&catalog), Some(310 * UNIT));
}

#[test]
fn item_contribution_is_value_times_quantity_times_servings() {
    let catalog = sample_catalog();
    let meal = Meal::new("snack", vec![MealItem::new("toast", amount("1.5"))], amount("2.5"));
    let n = meal.item_contribution(0, &catalog);
    assert_eq!(n.calories, 75_500 * 1_500 * 2_500);
    assert_eq!(n.proteins, 2_600 * 1_500 * 2_500);
    assert_eq!(n.minerals, 400 * 1_500 * 2_500);
    assert_eq!(meal.total(&catalog), Some(n));
}

#[test]
fn contribution_of_a_product() {
    let catalog = sample_catalog();
    let egg = catalog.lookup("egg");
    let n = Nutrients::of_item(egg, amount("0.5"), amount("3"));
    assert_eq!(n.calories, 155_000 * 500 * 3_000);
    assert_eq!(n.proteins, 13_000 * 500 * 3_000);
    assert_eq!(n.minerals, 1_000 * 500 * 3_000);
}

#[test]
fn missing_product_contributes_nothing() {
    let catalog = sample_catalog();
    assert_eq!(Nutrients::of_item(None, amount("4"), amount("2")), Nutrients::zero());
    let meal = Meal::new(
        "mystery",
        vec![MealItem::new("ghost", amount("4")), MealItem::new("egg", amount("1"))],
        amount("1"),
    );
    assert_eq!(meal.item_contribution(0, &catalog), Nutrients::zero());
    let total = meal.total(&catalog).unwrap();
    assert_eq!(total.calories, 155 * UNIT);
}

#[test]
fn negative_and_zero_quantities_are_taken_as_they_are() {
    let catalog = sample_catalog();
    let meal = Meal::new(
        "odd",
        vec![MealItem::new("egg", amount("-1")), MealItem::new("egg", amount("0"))],
        amount("2"),
    );
    let total = meal.total(&catalog).unwrap();
    assert_eq!(total.calories, -310 * UNIT);
    assert_eq!(total.proteins, -26 * UNIT);
    assert_eq!(total.minerals, -2 * UNIT);
}

#[test]
fn empty_meal_totals_nothing() {
    let catalog = sample_catalog();
    let meal = Meal::new("nothing", Vec::new(), amount("1"));
    assert_eq!(meal.total(&catalog), Some(Nutrients::zero()));
}

#[test]
fn servings_that_are_not_positive_become_one() {
    let zero = Meal::new("a", Vec::new(), amount("0"));
    assert_eq!(zero.servings(), Amount::one());
    let negative = Meal::new("b", Vec::new(), amount("-2.5"));
    assert_eq!(negative.servings(), Amount::one());
    let smallest = Meal::new("c", Vec::new(), Amount::from_millis(1));
    assert_eq!(smallest.servings(), Amount::from_millis(1));
    let three = Meal::new("d", Vec::new(), amount("3"));
    assert_eq!(three.servings(), amount("3"));
}

#[test]
fn meal_keeps_its_name_and_items() {
    let meal = Meal::new(
        "lunch",
        vec![MealItem::new("egg", amount("2")), MealItem::new("toast", amount("1"))],
        amount("3"),
    );
    assert_eq!(meal.name(), "lunch");
    assert_eq!(meal.len(), 2);
    assert_eq!(meal.item(0), &MealItem::new("egg", amount("2")));
    assert_eq!(meal.item(1), &MealItem::new("toast", amount("1")));
    assert_eq!(meal.clone(), meal);
}

#[test]
fn aggregate_is_the_sum_of_the_meal_totals() {
    let catalog = sample_catalog();
    let first = Meal::new(
        "breakfast",
        vec![MealItem::new("egg", amount("2")), MealItem::new("toast", amount("1"))],
        amount("1"),
    );
    let second = Meal::new("snack", vec![MealItem::new("toast", amount("0.5"))], amount("2"));
    let third = Meal::new("nothing", Vec::new(), amount("1"));
    let mut log = DailyLog::new(Date::new(2024, 1, 1).unwrap());
    log.push(first.clone());
    log.push(second.clone());
    log.push(third.clone());
    let a = first.total(&catalog).unwrap();
    let b = second.total(&catalog).unwrap();
    let c = third.total(&catalog).unwrap();
    let sum = a.checked_plus(&b).unwrap().checked_plus(&c).unwrap();
    assert_eq!(log.aggregate(&catalog), Some(sum));
    assert_eq!(sum.calories, 310 * UNIT + 75_500 * 1_000 * 1_000 + 75_500 * 500 * 2_000);
    assert_eq!(log.total_calories(&catalog), Some(sum.calories));
    assert_eq!(log.total_nutrients(&catalog), Some((sum.proteins, sum.minerals)));
}

#[test]
fn aggregate_of_an_empty_log_is_nothing() {
    let catalog = sample_catalog();
    let log = DailyLog::new(Date::new(2024, 1, 1).unwrap());
    assert_eq!(log.len(), 0);
    assert_eq!(log.aggregate(&catalog), Some(Nutrients::zero()));
}

#[test]
fn aggregate_follows_later_changes_of_a_product() {
    let mut catalog = sample_catalog();
    let mut log = DailyLog::new(Date::new(2024, 1, 1).unwrap());
    log.push(Meal::new("breakfast", vec![MealItem::new("egg", amount("2"))], amount("1")));
    assert_eq!(log.total_calories(&catalog), Some(310 * UNIT));
    catalog.add_product("egg", "g", amount("100"), amount("13"), amount("1"));
    assert_eq!(log.total_calories(&catalog), Some(200 * UNIT));
}

#[test]
fn checked_plus_adds_or_reports_overflow() {
    let a = Nutrients { calories: 1, proteins: 2, minerals: 3 };
    let b = Nutrients { calories: 10, proteins: -20, minerals: 30 };
    assert_eq!(a.checked_plus(&b), Some(Nutrients { calories: 11, proteins: -18, minerals: 33 }));
    let top = Nutrients { calories: 0, proteins: i128::MAX, minerals: 0 };
    assert_eq!(top.checked_plus(&a), None);
    let bottom = Nutrients { calories: i128::MIN, proteins: 0, minerals: 0 };
    assert_eq!(bottom.checked_plus(&Nutrients { calories: -1, proteins: 0, minerals: 0 }), None);
}

#[test]
fn largest_contribution_fits() {
    let mut catalog = Catalog::new();
    let least = Amount::from_millis(i32::MIN);
    catalog.add_product("x", "g", least, least, least);
    let n = Nutrients::of_item(catalog.lookup("x"), least, least);
    let cube = (i32::MIN as i128) * (i32::MIN as i128) * (i32::MIN as i128);
    assert_eq!(n.calories, cube);
}

#[test]
fn composer_keeps_meals_in_order_and_allows_equal_names() {
    let mut composer = Composer::new();
    assert_eq!(composer.len(), 0);
    composer.add_meal("lunch", vec![MealItem::new("egg", amount("1"))], amount("0"));
    composer.add_meal("lunch", Vec::new(), amount("2"));
    assert_eq!(composer.len(), 2);
    assert_eq!(composer.meal(0).name(), "lunch");
    assert_eq!(composer.meal(0).servings(), Amount::one());
    assert_eq!(composer.meal(0).len(), 1);
    assert_eq!(composer.meal(1).name(), "lunch");
    assert_eq!(composer.meal(1).servings(), amount("2"));
    composer.push(Meal::new("dinner", Vec::new(), amount("1")));
    assert_eq!(composer.meal(2).name(), "dinner");
}

#[test]
fn catalog_inserts_and_overwrites() {
    let mut catalog = sample_catalog();
    assert_eq!(catalog.len(), 2);
    assert!(catalog.contains("egg"));
    assert!(!catalog.contains("eg"));
    assert!(!catalog.contains("eggs"));
    assert!(catalog.lookup("milk").is_none());
    catalog.add_product("egg", "piece", amount("78"), amount("6.5"), amount("0.5"));
    assert_eq!(catalog.len(), 2);
    let egg = catalog.lookup("egg").unwrap();
    assert_eq!(egg.unit, "piece");
    assert_eq!(egg.calories, amount("78"));
    assert_eq!(egg.proteins, amount("6.5"));
    assert_eq!(egg.minerals, amount("0.5"));
    let (name, first) = catalog.entry(0);
    assert_eq!(name, "egg");
    assert_eq!(first, egg);
    assert_eq!(catalog.entry(1).0, "toast");
    catalog.add_product("milk", "cup", amount("-1"), amount("0"), amount("0"));
    assert_eq!(catalog.len(), 3);
    assert_eq!(catalog.entry(2).0, "milk");
    assert_eq!(catalog.lookup("milk").unwrap().calories, amount("-1"));
}

#[test]
fn copies_equal_what_they_copy() {
    let catalog = sample_catalog();
    let egg = catalog.lookup("egg").unwrap();
    assert_eq!(&egg.clone(), egg);
    let items = vec![MealItem::new("egg", amount("2")), MealItem::new("toast", amount("1"))];
    assert_eq!(diet_manager::meal::clone_items(&items), items);
    assert_eq!(items[0].clone(), items[0]);
    let meals = vec![Meal::new("a", items, amount("2")), Meal::new("b", Vec::new(), amount("1"))];
    assert_eq!(diet_manager::meal::clone_meals(&meals), meals);
}
