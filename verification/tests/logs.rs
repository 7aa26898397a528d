use diet_manager::amount::Amount;
use diet_manager::catalog::Catalog;
use diet_manager::compose::{classify_entry, select_meal, Entry, MealDraft, Selection};
use diet_manager::daily_log::DailyLog;
use diet_manager::date::Date;
use diet_manager::log_store::LogStore;
use diet_manager::meal::{Meal, MealItem};
use diet_manager::menu::{
    main_choice, manage_choice, read_menu_number, user_choice, MainChoice, ManageChoice, UserChoice,
};
use diet_manager::users::{User, UserRegistry};

fn amount(text: &str) -> Amount {
    Amount::parse(text).unwrap()
}

fn day(year: i32, month: u32, day: u32) -> Date {
    Date::new(year, month, day).unwrap()
}

fn meal(name: &str) -> Meal {
    Meal::new(name, vec![MealItem::new("egg", amount("2"))], amount("1"))
}

#[test]
fn dates_exist_in_the_calendar() {
    assert!(Date::new(2024, 2, 29).is_some());
    assert!(Date::new(2023, 2, 29).is_none());
    assert!(Date::new(1900, 2, 29).is_none());
    assert!(Date::new(2000, 2, 29).is_some());
    assert!(Date::new(-4, 2, 29).is_some());
    assert!(Date::new(2024, 4, 31).is_none());
    assert!(Date::new(2024, 12, 31).is_some());
    assert!(Date::new(2024, 0, 1).is_none());
    assert!(Date::new(2024, 13, 1).is_none());
    assert!(Date::new(2024, 1, 0).is_none());
    assert!(Date::new(2024, 1, 32).is_none());
    assert!(Date::new(262142, 12, 31).is_some());
    assert!(Date::new(262143, 1, 1).is_none());
    assert!(Date::new(-262143, 1, 1).is_some());
    assert!(Date::new(-262144, 12, 31).is_none());
    let d = day(2024, 1, 3);
    assert_eq!((d.year(), d.month(), d.day()), (2024, 1, 3));
}

#[test]
fn dates_agree_with_the_calendar_of_chrono() {
    for year in [-262144, -262143, -401, -400, -100, -4, -1, 0, 1, 4, 100, 400, 1900, 2000, 2023, 2024, 2100, 262142, 262143] {
        for month in 0..14 {
            for d in 0..33 {
                assert_eq!(
                    Date::new(year, month, d).is_some(),
                    chrono::NaiveDate::from_ymd_opt(year, month, d).is_some(),
                    "{}-{}-{}",
                    year,
                    month,
                    d
                );
            }
        }
    }
}

#[test]
fn dates_are_ordered() {
    assert!(day(2024, 1, 1).is_before(day(2024, 1, 3)));
    assert!(!day(2024, 1, 3).is_before(day(2024, 1, 1)));
    assert!(!day(2024, 1, 3).is_before(day(2024, 1, 3)));
    assert!(day(2023, 12, 31).is_before(day(2024, 1, 1)));
    assert!(day(2024, 1, 31).is_before(day(2024, 2, 1)));
    assert!(day(-1, 12, 31).is_before(day(0, 1, 1)));
    assert!(day(2024, 1, 3).same_day(day(2024, 1, 3)));
    assert!(!day(2024, 1, 3).same_day(day(2024, 3, 1)));
}

#[test]
fn dates_are_read_from_text() {
    assert_eq!(Date::parse("2024-01-03"), Some(day(2024, 1, 3)));
    assert_eq!(Date::parse("2015-09-05"), Some(day(2015, 9, 5)));
    assert_eq!(Date::parse("2024-1-3"), Some(day(2024, 1, 3)));
    assert_eq!(Date::parse("+12345-06-07"), Some(day(12345, 6, 7)));
    assert_eq!(Date::parse("-0001-01-01"), Some(day(-1, 1, 1)));
    assert_eq!(Date::parse("2024-02-30"), None);
    assert_eq!(Date::parse("2024-13-01"), None);
    assert_eq!(Date::parse("2024/01/03"), None);
    assert_eq!(Date::parse("today"), None);
    assert_eq!(Date::parse(""), None);
    assert_eq!(Date::parse("2024-01"), None);
    assert_eq!(Date::parse("2024-01-03x"), None);
}

#[test]
fn dates_are_written_as_text() {
    assert_eq!(day(2024, 1, 3).to_text(), "2024-01-03");
    assert_eq!(day(2015, 12, 25).to_text(), "2015-12-25");
    assert_eq!(day(0, 1, 1).to_text(), "0000-01-01");
    assert_eq!(day(5, 10, 9).to_text(), "0005-10-09");
    assert_eq!(day(999, 1, 1).to_text(), "0999-01-01");
    assert_eq!(day(9999, 12, 31).to_text(), "9999-12-31");
    assert_eq!(day(10000, 12, 31).to_text(), "+10000-12-31");
    assert_eq!(day(262142, 12, 31).to_text(), "+262142-12-31");
    assert_eq!(day(-1, 1, 1).to_text(), "-0001-01-01");
    assert_eq!(day(-12345, 1, 1).to_text(), "-12345-01-01");
}

#[test]
fn written_dates_are_read_back() {
    for d in [day(2024, 1, 3), day(0, 1, 1), day(-1, 12, 31), day(10000, 1, 1), day(262142, 12, 31), day(-262143, 1, 1), day(999, 2, 28)] {
        assert_eq!(Date::parse(&d.to_text()), Some(d));
    }
}

#[test]
fn today_is_the_date_of_the_clock() {
    let before = chrono::Local::now().date_naive();
    let today = Date::today();
    let after = chrono::Local::now().date_naive();
    let text = today.to_text();
    assert!(text == before.format("%Y-%m-%d").to_string() || text == after.format("%Y-%m-%d").to_string());
    assert_eq!(Date::new(today.year(), today.month(), today.day()), Some(today));
}

#[test]
fn first_log_of_a_user_and_date_makes_one_log_with_that_meal() {
    let mut store = LogStore::new();
    assert_eq!(store.len(), 0);
    assert!(store.log("ann", day(2024, 1, 1)).is_none());
    store.log_meal("ann", day(2024, 1, 1), meal("breakfast"));
    assert_eq!(store.len(), 1);
    let (user, log) = store.entry(0);
    assert_eq!(user, "ann");
    assert_eq!(log.date(), day(2024, 1, 1));
    assert_eq!(log.len(), 1);
    assert_eq!(log.meal(0), &meal("breakfast"));
    assert_eq!(store.log("ann", day(2024, 1, 1)), Some(log));
    assert!(store.log("ann", day(2024, 1, 2)).is_none());
    assert!(store.log("bob", day(2024, 1, 1)).is_none());
}

#[test]
fn later_meals_of_a_day_follow_the_earlier_ones() {
    let mut store = LogStore::new();
    store.log_meal("ann", day(2024, 1, 1), meal("breakfast"));
    store.log_meal("bob", day(2024, 1, 1), meal("brunch"));
    store.log_meal("ann", day(2024, 1, 2), meal("lunch"));
    store.log_meal("ann", day(2024, 1, 1), meal("dinner"));
    assert_eq!(store.len(), 3);
    let log = store.log("ann", day(2024, 1, 1)).unwrap();
    assert_eq!(log.len(), 2);
    assert_eq!(log.meal(0).name(), "breakfast");
    assert_eq!(log.meal(1).name(), "dinner");
    assert_eq!(store.log("bob", day(2024, 1, 1)).unwrap().len(), 1);
    assert_eq!(store.log("ann", day(2024, 1, 2)).unwrap().meal(0).name(), "lunch");
    assert_eq!(store.entry(0).0, "ann");
    assert_eq!(store.entry(1).0, "bob");
    assert_eq!(store.entry(2).1.date(), day(2024, 1, 2));
}

#[test]
fn query_gives_the_latest_date_first() {
    let mut store = LogStore::new();
    store.log_meal("ann", day(2024, 1, 1), meal("first"));
    store.log_meal("ann", day(2024, 1, 3), meal("third"));
    let logs = store.query("ann");
    assert_eq!(logs.len(), 2);
    assert_eq!(logs[0].date(), day(2024, 1, 3));
    assert_eq!(logs[0].meal(0).name(), "third");
    assert_eq!(logs[1].date(), day(2024, 1, 1));
    assert_eq!(logs[1].meal(0).name(), "first");
}

#[test]
fn query_sorts_the_logs_of_one_user_only() {
    let mut store = LogStore::new();
    let dates = [day(2024, 3, 5), day(2023, 12, 31), day(2024, 3, 6), day(2024, 1, 1), day(2025, 1, 1), day(2024, 2, 29)];
    for (i, d) in dates.iter().enumerate() {
        store.log_meal("ann", *d, meal("a"));
        if i % 2 == 0 {
            store.log_meal("bob", *d, meal("b"));
        }
        store.log_meal("ann", *d, meal("again"));
    }
    let logs = store.query("ann");
    let found: Vec<Date> = logs.iter().map(|l| l.date()).collect();
    assert_eq!(found, vec![day(2025, 1, 1), day(2024, 3, 6), day(2024, 3, 5), day(2024, 2, 29), day(2024, 1, 1), day(2023, 12, 31)]);
    assert!(logs.iter().all(|l| l.len() == 2 && l.meal(0).name() == "a"));
    let logs = store.query("bob");
    let found: Vec<Date> = logs.iter().map(|l| l.date()).collect();
    assert_eq!(found, vec![day(2025, 1, 1), day(2024, 3, 6), day(2024, 3, 5)]);
    assert!(store.query("carl").is_empty());
    assert!(store.query("an").is_empty());
}

#[test]
fn meal_logged_today_is_found_under_the_date_given() {
    let mut store = LogStore::new();
    let date = store.log_meal_today("ann", meal("now"));
    assert_eq!(store.len(), 1);
    assert_eq!(store.log("ann", date).unwrap().meal(0), &meal("now"));
    let again = store.log_meal_today("ann", meal("later"));
    assert_eq!(store.log("ann", again).unwrap().meal(again.same_day(date) as usize).name(), "later");
}

#[test]
fn daily_log_keeps_meals_in_order() {
    let mut log = DailyLog::new(day(2024, 5, 6));
    assert_eq!(log.date(), day(2024, 5, 6));
    log.push(meal("a"));
    log.push(meal("b"));
    assert_eq!(log.len(), 2);
    assert_eq!(log.meal(0).name(), "a");
    assert_eq!(log.meal(1).name(), "b");
    assert_eq!(log.clone(), log);
}

#[test]
fn entries_are_classified() {
    let mut catalog = Catalog::new();
    catalog.add_product("egg", "g", amount("155"), amount("13"), amount("1"));
    catalog.add_product("done", "g", amount("1"), amount("1"), amount("1"));
    assert_eq!(classify_entry(&catalog, "egg"), Entry::Known);
    assert_eq!(classify_entry(&catalog, "milk"), Entry::Unknown);
    assert_eq!(classify_entry(&catalog, "done"), Entry::Done);
    assert_eq!(classify_entry(&catalog, "Done"), Entry::Unknown);
    assert_eq!(classify_entry(&catalog, ""), Entry::Unknown);
}

#[test]
fn draft_takes_known_products_only() {
    let mut catalog = Catalog::new();
    catalog.add_product("egg", "g", amount("155"), amount("13"), amount("1"));
    let mut draft = MealDraft::new("lunch");
    assert!(draft.add_item(&catalog, "egg", amount("2")));
    assert!(!draft.add_item(&catalog, "milk", amount("1")));
    assert!(draft.add_item(&catalog, "egg", amount("0")));
    let made = draft.finish(amount("-1"));
    assert_eq!(
        made,
        Meal::new(
            "lunch",
            vec![MealItem::new("egg", amount("2")), MealItem::new("egg", amount("0"))],
            amount("1"),
        )
    );
    let empty = MealDraft::new("none").finish(amount("2"));
    assert_eq!(empty, Meal::new("none", Vec::new(), amount("2")));
}

#[test]
fn meals_are_selected_by_number() {
    assert_eq!(select_meal("0", 3), Selection::Custom);
    assert_eq!(select_meal("1", 3), Selection::Stored(0));
    assert_eq!(select_meal("3", 3), Selection::Stored(2));
    assert_eq!(select_meal("+2", 3), Selection::Stored(1));
    assert_eq!(select_meal("002", 3), Selection::Stored(1));
    assert_eq!(select_meal("4", 3), Selection::OutOfRange);
    assert_eq!(select_meal("00", 3), Selection::OutOfRange);
    assert_eq!(select_meal("1", 0), Selection::OutOfRange);
    assert_eq!(select_meal("0", 0), Selection::Custom);
    assert_eq!(select_meal("", 3), Selection::Unreadable);
    assert_eq!(select_meal("one", 3), Selection::Unreadable);
    assert_eq!(select_meal("-1", 3), Selection::Unreadable);
    assert_eq!(select_meal("1.0", 3), Selection::Unreadable);
    assert_eq!(select_meal("99999999999999999999999", 3), Selection::Unreadable);
}

#[test]
fn users_are_registered_under_their_names() {
    let mut registry = UserRegistry::new();
    assert_eq!(registry.len(), 0);
    assert!(!registry.contains("ann"));
    registry.register(User::new("ann", 30, "F", amount("170"), amount("60.5")));
    registry.register(User::new("bob", 41, "M", amount("180"), amount("82")));
    assert!(registry.contains("ann"));
    assert!(registry.contains("bob"));
    assert!(!registry.contains("Ann"));
    assert_eq!(registry.len(), 2);
    registry.register(User::new("ann", 31, "F", amount("171"), amount("61")));
    assert_eq!(registry.len(), 2);
    let ann = registry.lookup("ann").unwrap();
    assert_eq!(ann, &User::new("ann", 31, "F", amount("171"), amount("61")));
    assert_eq!(registry.user(0), ann);
    assert_eq!(registry.user(1).name, "bob");
    assert!(registry.lookup("carl").is_none());
    assert_eq!(ann.clone(), *ann);
}

#[test]
fn menu_lines_choose_by_their_digit() {
    assert_eq!(main_choice("1"), MainChoice::SignUp);
    assert_eq!(main_choice("2"), MainChoice::LogIn);
    assert_eq!(main_choice("3"), MainChoice::Exit);
    assert_eq!(main_choice("4"), MainChoice::Invalid);
    assert_eq!(main_choice(""), MainChoice::Invalid);
    assert_eq!(main_choice("01"), MainChoice::Invalid);
    assert_eq!(main_choice("1 "), MainChoice::Invalid);
    assert_eq!(user_choice("1"), UserChoice::ManageProducts);
    assert_eq!(user_choice("2"), UserChoice::ManageMeals);
    assert_eq!(user_choice("3"), UserChoice::LogIntake);
    assert_eq!(user_choice("4"), UserChoice::ViewLogs);
    assert_eq!(user_choice("5"), UserChoice::GoBack);
    assert_eq!(user_choice("6"), UserChoice::Invalid);
    assert_eq!(user_choice("back"), UserChoice::Invalid);
    assert_eq!(manage_choice("1"), ManageChoice::Add);
    assert_eq!(manage_choice("2"), ManageChoice::View);
    assert_eq!(manage_choice("3"), ManageChoice::GoBack);
    assert_eq!(manage_choice("5"), ManageChoice::Invalid);
    assert_eq!(read_menu_number("5"), 5);
    assert_eq!(read_menu_number("0"), 0);
    assert_eq!(read_menu_number("12"), 0);
}
