use diet_manager::amount::Amount;
use diet_manager::catalog::Catalog;
use diet_manager::date::Date;
use diet_manager::log_records::{decode_logs, encode_log_store, log_item, BadDate};
use diet_manager::log_store::LogStore;
use diet_manager::meal::{Composer, Meal, MealItem};
use diet_manager::meal_records::{decode_composer, encode_composer};
use diet_manager::product_records::{decode_catalog, encode_catalog};
use diet_manager::records::read_amount_or;
use diet_manager::log_reload::reload;
use diet_manager::user_records::{decode_registry, encode_registry, parse_age, read_age};
use diet_manager::users::{User, UserRegistry};

fn amount(text: &str) -> Amount {
    Amount::parse(text).unwrap()
}

fn day(year: i32, month: u32, day: u32) -> Date {
    Date::new(year, month, day).unwrap()
}

fn sample_catalog() -> Catalog {
    let mut catalog = Catalog::new();
    catalog.add_product("egg", "g", amount("155"), amount("13"), amount("1"));
    catalog.add_product("toast", "slice", amount("75.5"), amount("2.6"), amount("0.4"));
    catalog
}

fn same_products(a: &Catalog, b: &Catalog) -> bool {
    a.len() == b.len() && (0..a.len()).all(|i| {
        let (name, product) = a.entry(i);
        b.lookup(name) == Some(product)
    })
}

fn same_users(a: &UserRegistry, b: &UserRegistry) -> bool {
    a.len() == b.len() && (0..a.len()).all(|i| {
        let user = a.user(i);
        b.lookup(&user.name) == Some(user)
    })
}

#[test]
fn catalog_is_written_one_line_for_each_product() {
    assert_eq!(encode_catalog(&Catalog::new()), "");
    assert_eq!(encode_catalog(&sample_catalog()), "egg,g,155,13,1\ntoast,slice,75.5,2.6,0.4\n");
}

#[test]
fn catalog_is_read_from_its_lines() {
    let catalog = decode_catalog("egg,g,155,13,1\ntoast,slice,75.5,2.6,0.4\n");
    assert!(same_products(&catalog, &sample_catalog()));
    assert_eq!(decode_catalog("").len(), 0);
    let windows = decode_catalog("egg,g,155,13,1\r\ntoast,slice,75.5,2.6,0.4");
    assert!(same_products(&windows, &sample_catalog()));
}

#[test]
fn product_line_of_four_fields_is_dropped() {
    let catalog = decode_catalog("egg,g,155,13\ntoast,slice,75.5,2.6,0.4\n");
    assert_eq!(catalog.len(), 1);
    assert!(!catalog.contains("egg"));
    let toast = catalog.lookup("toast").unwrap();
    assert_eq!(toast.unit, "slice");
    assert_eq!(toast.calories, amount("75.5"));
    assert_eq!(toast.proteins, amount("2.6"));
    assert_eq!(toast.minerals, amount("0.4"));
}

#[test]
fn product_lines_of_other_field_counts_are_dropped() {
    let catalog = decode_catalog("\negg\na,b,1,2,3,4\n,,,,\nmilk,cup,1,2,3\n");
    assert_eq!(catalog.len(), 2);
    let blank = catalog.lookup("").unwrap();
    assert_eq!(blank.unit, "");
    assert_eq!(blank.calories, Amount::zero());
    assert!(catalog.contains("milk"));
}

#[test]
fn product_values_that_are_no_numbers_count_as_zero() {
    let catalog = decode_catalog("egg,g,many,13,\n");
    let egg = catalog.lookup("egg").unwrap();
    assert_eq!(egg.calories, Amount::zero());
    assert_eq!(egg.proteins, amount("13"));
    assert_eq!(egg.minerals, Amount::zero());
    assert_eq!(read_amount_or(&['x'], Amount::one()), Amount::one());
    assert_eq!(read_amount_or(&['7'], Amount::one()), amount("7"));
}

#[test]
fn later_product_line_replaces_an_earlier_one() {
    let catalog = decode_catalog("egg,g,155,13,1\negg,piece,78,6,0.5\n");
    assert_eq!(catalog.len(), 1);
    assert_eq!(catalog.lookup("egg").unwrap().unit, "piece");
}

#[test]
fn written_catalog_is_read_back() {
    let mut catalog = sample_catalog();
    catalog.add_product("olive oil", "table spoon", amount("-0.001"), amount("2147483.647"), amount("0"));
    catalog.add_product("", "", amount("1"), amount("2"), amount("3"));
    catalog.add_product("crème\r", "\rcup", amount("1.01"), amount("2.2"), amount("3.003"));
    let back = decode_catalog(&encode_catalog(&catalog));
    assert!(same_products(&back, &catalog));
    assert!(same_products(&catalog, &back));
    assert_eq!(encode_catalog(&back), encode_catalog(&catalog));
}

#[test]
fn users_are_written_one_line_for_each() {
    let mut registry = UserRegistry::new();
    registry.register(User::new("ann", 30, "F", amount("170"), amount("60.5")));
    registry.register(User::new("bob", 41, "M", amount("180.25"), amount("82")));
    assert_eq!(encode_registry(&registry), "ann,30,F,170,60.5\nbob,41,M,180.25,82\n");
    assert_eq!(encode_registry(&UserRegistry::new()), "");
}

#[test]
fn users_are_read_from_their_lines() {
    let registry = decode_registry("ann,30,F,170,60.5\nshort,1,F,2\nbob,old,M,tall,82\n");
    assert_eq!(registry.len(), 2);
    assert_eq!(registry.lookup("ann"), Some(&User::new("ann", 30, "F", amount("170"), amount("60.5"))));
    assert_eq!(registry.lookup("bob"), Some(&User::new("bob", 0, "M", Amount::zero(), amount("82"))));
    assert!(!registry.contains("short"));
    let ages = decode_registry("a,4294967295,F,1,1\nb,4294967296,F,1,1\nc,-1,F,1,1\nd,+7,F,1,1\n");
    assert_eq!(ages.lookup("a").unwrap().age, u32::MAX);
    assert_eq!(ages.lookup("b").unwrap().age, 0);
    assert_eq!(ages.lookup("c").unwrap().age, 0);
    assert_eq!(ages.lookup("d").unwrap().age, 7);
}

#[test]
fn written_users_are_read_back() {
    let mut registry = UserRegistry::new();
    registry.register(User::new("ann", 30, "F", amount("170"), amount("60.5")));
    registry.register(User::new("bob", u32::MAX, "", amount("-1"), amount("0.001")));
    registry.register(User::new("", 0, "M/F", amount("0"), amount("0")));
    let back = decode_registry(&encode_registry(&registry));
    assert!(same_users(&back, &registry));
    assert!(same_users(&registry, &back));
}

#[test]
fn meals_are_written_with_their_items_and_an_empty_line() {
    let mut composer = Composer::new();
    composer.add_meal(
        "breakfast",
        vec![MealItem::new("egg", amount("2")), MealItem::new("toast", amount("1.5"))],
        amount("3"),
    );
    composer.add_meal("air", Vec::new(), amount("1"));
    assert_eq!(encode_composer(&composer), "breakfast\negg,2\ntoast,1.5\n\nair\n\n");
    assert_eq!(encode_composer(&Composer::new()), "");
}

#[test]
fn meals_are_read_with_one_serving() {
    let composer = decode_composer("breakfast\negg,2\ntoast,1.5\n\nair\n\n");
    assert_eq!(composer.len(), 2);
    assert_eq!(
        composer.meal(0),
        &Meal::new(
            "breakfast",
            vec![MealItem::new("egg", amount("2")), MealItem::new("toast", amount("1.5"))],
            amount("1"),
        )
    );
    assert_eq!(composer.meal(1), &Meal::new("air", Vec::new(), amount("1")));
}

#[test]
fn meal_text_without_its_last_empty_line_still_gives_the_meal() {
    let composer = decode_composer("lunch\negg,1\nnot an item\na,b,c\ntoast,some");
    assert_eq!(composer.len(), 1);
    assert_eq!(
        composer.meal(0),
        &Meal::new(
            "lunch",
            vec![MealItem::new("egg", amount("1")), MealItem::new("toast", amount("0"))],
            amount("1"),
        )
    );
    let unnamed = decode_composer("\negg,1\n\n\n\n");
    assert_eq!(unnamed.len(), 2);
    assert_eq!(unnamed.meal(0), &Meal::new("", vec![MealItem::new("egg", amount("1"))], amount("1")));
    assert_eq!(unnamed.meal(1), &Meal::new("", Vec::new(), amount("1")));
    assert_eq!(decode_composer("").len(), 0);
}

#[test]
fn written_meals_are_read_back_with_one_serving() {
    let mut composer = Composer::new();
    composer.add_meal("breakfast", vec![MealItem::new("egg", amount("2"))], amount("3"));
    composer.add_meal("", Vec::new(), amount("1"));
    composer.add_meal("tea, with milk", vec![MealItem::new("", amount("-0.5"))], amount("1"));
    let back = decode_composer(&encode_composer(&composer));
    assert_eq!(back.len(), 3);
    assert_eq!(back.meal(0), &Meal::new("breakfast", vec![MealItem::new("egg", amount("2"))], amount("1")));
    assert_eq!(back.meal(1), composer.meal(1));
    assert_eq!(back.meal(2), composer.meal(2));
}

#[test]
fn logs_are_written_one_line_for_each_item() {
    let mut store = LogStore::new();
    store.log_meal(
        "ann",
        day(2024, 1, 3),
        Meal::new(
            "breakfast",
            vec![MealItem::new("egg", amount("2")), MealItem::new("toast", amount("1"))],
            amount("3"),
        ),
    );
    store.log_meal("bob", day(2023, 12, 31), Meal::new("air", Vec::new(), amount("1")));
    store.log_meal("ann", day(2024, 1, 3), Meal::new("snack", vec![MealItem::new("egg", amount("0.5"))], amount("1")));
    assert_eq!(
        encode_log_store(&store),
        "ann,2024-01-03,3,egg,2\nann,2024-01-03,3,toast,1\nann,2024-01-03,1,egg,0.5\n"
    );
    assert_eq!(encode_log_store(&LogStore::new()), "");
}

#[test]
fn reloaded_logs_hold_one_meal_for_each_item_and_the_same_totals() {
    let catalog = sample_catalog();
    let mut store = LogStore::new();
    let date = day(2024, 1, 3);
    store.log_meal(
        "ann",
        date,
        Meal::new(
            "breakfast",
            vec![MealItem::new("egg", amount("2")), MealItem::new("toast", amount("1"))],
            amount("3"),
        ),
    );
    let before = store.log("ann", date).unwrap().aggregate(&catalog).unwrap();
    let back = decode_logs(&encode_log_store(&store)).unwrap();
    assert_eq!(back.len(), 1);
    let log = back.log("ann", date).unwrap();
    assert_eq!(log.len(), 2);
    assert_eq!(log.meal(0), &Meal::new("Loaded Meal", vec![MealItem::new("egg", amount("2"))], amount("3")));
    assert_eq!(log.meal(1), &Meal::new("Loaded Meal", vec![MealItem::new("toast", amount("1"))], amount("3")));
    assert_eq!(log.aggregate(&catalog), Some(before));
    assert_eq!(before.calories, (155_000 * 2_000 + 75_500 * 1_000) * 3_000);
}

#[test]
fn log_lines_are_read_with_their_defaults() {
    let store = decode_logs("ann,2024-01-03,x,egg,y\nann,2024-01-03,0,egg,2\nann,2024-1-4,-2,toast,1.5\nbob,2024-01-03,2.5,egg,1\n").unwrap();
    assert_eq!(store.len(), 3);
    let log = store.log("ann", day(2024, 1, 3)).unwrap();
    assert_eq!(log.len(), 2);
    assert_eq!(log.meal(0), &Meal::new("Loaded Meal", vec![MealItem::new("egg", amount("0"))], amount("1")));
    assert_eq!(log.meal(1), &Meal::new("Loaded Meal", vec![MealItem::new("egg", amount("2"))], amount("1")));
    let next = store.log("ann", day(2024, 1, 4)).unwrap();
    assert_eq!(next.meal(0), &Meal::new("Loaded Meal", vec![MealItem::new("toast", amount("1.5"))], amount("1")));
    let bob = store.log("bob", day(2024, 1, 3)).unwrap();
    assert_eq!(bob.meal(0).servings(), amount("2.5"));
}

#[test]
fn log_lines_of_other_field_counts_are_passed_over() {
    let store = decode_logs("ann,2024-01-03,1\nann,2024-01-03,1,egg\n\nann,never,1,egg,2,more\nann,2024-01-03,1,egg,2\n").unwrap();
    assert_eq!(store.len(), 1);
    assert_eq!(store.log("ann", day(2024, 1, 3)).unwrap().len(), 1);
    assert_eq!(decode_logs("").unwrap().len(), 0);
}

#[test]
fn log_line_with_a_date_that_cannot_be_read_ends_the_reading() {
    assert_eq!(decode_logs("ann,2024-01-03,1,egg,2\nshort\nann,2024-02-30,1,egg,2\nann,also bad,1,egg,2\n").err(), Some(BadDate { line: 2 }));
    assert_eq!(decode_logs("ann,,1,egg,2").err(), Some(BadDate { line: 0 }));
}

#[test]
fn logged_item_is_a_meal_of_its_own() {
    let mut store = LogStore::new();
    log_item(&mut store, "ann", day(2024, 1, 3), amount("0"), "egg", amount("2"));
    log_item(&mut store, "ann", day(2024, 1, 3), amount("2"), "toast", amount("1"));
    let log = store.log("ann", day(2024, 1, 3)).unwrap();
    assert_eq!(log.len(), 2);
    assert_eq!(log.meal(0), &Meal::new("Loaded Meal", vec![MealItem::new("egg", amount("2"))], amount("1")));
    assert_eq!(log.meal(1), &Meal::new("Loaded Meal", vec![MealItem::new("toast", amount("1"))], amount("2")));
}

#[test]
fn ages_are_read_with_zero_for_what_is_no_age() {
    assert_eq!(parse_age("30"), 30);
    assert_eq!(parse_age("+30"), 30);
    assert_eq!(parse_age("030"), 30);
    assert_eq!(parse_age("4294967295"), u32::MAX);
    assert_eq!(parse_age("4294967296"), 0);
    assert_eq!(parse_age("thirty"), 0);
    assert_eq!(parse_age("-3"), 0);
    assert_eq!(parse_age("3.5"), 0);
    assert_eq!(parse_age(""), 0);
    assert_eq!(read_age(&['4', '2']), 42);
    assert_eq!(read_age(&[]), 0);
}

#[test]
fn reload_splits_meals_into_their_items_and_keeps_the_totals() {
    let catalog = sample_catalog();
    let mut store = LogStore::new();
    store.log_meal(
        "ann",
        day(2024, 1, 3),
        Meal::new(
            "breakfast",
            vec![MealItem::new("egg", amount("2")), MealItem::new("toast", amount("1"))],
            amount("3"),
        ),
    );
    store.log_meal("bob", day(2024, 1, 3), Meal::new("air", Vec::new(), amount("1")));
    store.log_meal("ann", day(-44, 3, 15), Meal::new("feast", vec![MealItem::new("boar", amount("0.25"))], amount("0.5")));
    store.log_meal("ann", day(2024, 1, 3), Meal::new("snack", vec![MealItem::new("egg", amount("-1"))], amount("2")));
    let back = reload(&store).unwrap();
    assert_eq!(back.len(), 2);
    assert!(back.log("bob", day(2024, 1, 3)).is_none());
    let log = back.log("ann", day(2024, 1, 3)).unwrap();
    assert_eq!(log.len(), 3);
    assert_eq!(log.meal(0), &Meal::new("Loaded Meal", vec![MealItem::new("egg", amount("2"))], amount("3")));
    assert_eq!(log.meal(1), &Meal::new("Loaded Meal", vec![MealItem::new("toast", amount("1"))], amount("3")));
    assert_eq!(log.meal(2), &Meal::new("Loaded Meal", vec![MealItem::new("egg", amount("-1"))], amount("2")));
    assert_eq!(log.aggregate(&catalog), store.log("ann", day(2024, 1, 3)).unwrap().aggregate(&catalog));
    let old = back.log("ann", day(-44, 3, 15)).unwrap();
    assert_eq!(old.meal(0), &Meal::new("Loaded Meal", vec![MealItem::new("boar", amount("0.25"))], amount("0.5")));
    assert_eq!(encode_log_store(&back), encode_log_store(&store));
}

#[test]
fn reload_of_a_name_with_a_comma_loses_the_item() {
    let mut store = LogStore::new();
    store.log_meal("ann", day(2024, 1, 3), Meal::new("m", vec![MealItem::new("salt, sea", amount("1"))], amount("1")));
    store.log_meal("ann", day(2024, 1, 3), Meal::new("m", vec![MealItem::new("egg", amount("1"))], amount("1")));
    let back = reload(&store).unwrap();
    assert_eq!(back.log("ann", day(2024, 1, 3)).unwrap().len(), 1);
}
