//! What is left of the logs when they are written as text and read back:
//! each logged item becomes a meal of its own, and the intake of each day
//! stays what it was.

use vstd::prelude::*;
use crate::amount::Amount;
use crate::assoc::{distinct_keys, has_key, value_or};
use crate::catalog::ProductView;
use crate::daily_log::{day_terms, day_total, item_count};
use crate::date::Date;
use crate::log_records::{
    dates_read_back, dates_readable, decode_logs, encode_log_store, encode_logs, encode_records,
    loaded_meal, logs_of_lines, read_line, record_line, records_of_logs, records_of_meal,
    records_of_meals, with_record, BadDate, LineReading, LogRecord,
};
use crate::log_store::{positive_servings, LogStore};
use crate::meal::{meal_terms, MealView};
use crate::records::lemma_amount_field;
use crate::text::{
    free_of, is_field, lemma_lines_push, lemma_split_cons, lemma_split_single, lines, split,
    strip_cr,
};

verus! {

/// The logs that the items `records` make when each is logged in turn as a
/// meal of its own.
pub open spec fn logs_of_records(records: Seq<LogRecord>) -> Map<(Seq<char>, Date), Seq<MealView>>
    decreases records.len(),
{
    if records.len() == 0 {
        Map::empty()
    } else {
        with_record(logs_of_records(records.drop_last()), records.last())
    }
}

/// Whether the line of `record` can be read back: the names of its user and
/// of its product hold no comma and no line feed, and its date is read back
/// from the date's text.
pub open spec fn readable(record: LogRecord) -> bool {
    &&& is_field(record.user)
    &&& is_field(record.product)
    &&& Date::parsed(record.date.text()) == Some(record.date)
}

/// The lines of the items.
pub open spec fn record_lines(records: Seq<LogRecord>) -> Seq<Seq<char>> {
    Seq::new(records.len(), |i: int| record_line(records[i]))
}

/// The items among `records` that were logged under `key`, in their order.
pub open spec fn records_under(records: Seq<LogRecord>, key: (Seq<char>, Date)) -> Seq<LogRecord>
    decreases records.len(),
{
    if records.len() == 0 {
        Seq::empty()
    } else if (records.last().user, records.last().date) == key {
        records_under(records.drop_last(), key).push(records.last())
    } else {
        records_under(records.drop_last(), key)
    }
}

/// The meals that the items are read back as.
pub open spec fn loaded_meals(records: Seq<LogRecord>) -> Seq<MealView> {
    Seq::new(records.len(), |i: int| loaded_meal(records[i]))
}

/// Whether the names of all users and of all products in the logs hold no
/// comma and no line feed.
pub open spec fn plain_names(entries: Seq<((Seq<char>, Date), Seq<MealView>)>) -> bool {
    forall|i: int|
        0 <= i < entries.len() ==> is_field((#[trigger] entries[i]).0.0) && forall|j: int, k: int|
            0 <= j < entries[i].1.len() && 0 <= k < entries[i].1[j].items.len() ==> is_field(
                (#[trigger] entries[i].1[j].items[k]).0,
            )
}

/// The line of an item that can be read back holds no line feed, ends in no
/// carriage return, and is read as the item.
pub proof fn lemma_record_line(record: LogRecord)
    requires
        readable(record),
    ensures
        free_of(record_line(record), '\n'),
        strip_cr(record_line(record)) == record_line(record),
        read_line(record_line(record)) == LineReading::Item(record),
{
    let d = record.date.text();
    let s = crate::amount::millis_text(record.servings.value());
    let q = crate::amount::millis_text(record.quantity.value());
    record.date.lemma_text_is_field();
    lemma_amount_field(record.servings, Amount { millis: 1000 });
    lemma_amount_field(record.quantity, Amount { millis: 0 });
    let line = record_line(record);
    let r3 = record.product + seq![','] + q;
    let r2 = s + seq![','] + r3;
    let r1 = d + seq![','] + r2;
    assert(line =~= record.user + seq![','] + r1);
    lemma_split_cons(record.user, r1, ',');
    lemma_split_cons(d, r2, ',');
    lemma_split_cons(s, r3, ',');
    lemma_split_cons(record.product, q, ',');
    lemma_split_single(q, ',');
    let fields = split(line, ',');
    assert(fields =~= seq![record.user, d, s, record.product, q]);
    assert(line.last() == q.last());
}

/// The lines of the text of items that can be read back are the lines of the
/// items.
pub proof fn lemma_lines_of_records(records: Seq<LogRecord>)
    requires
        forall|i: int| 0 <= i < records.len() ==> readable(#[trigger] records[i]),
    ensures
        lines(encode_records(records)) == record_lines(records),
    decreases records.len(),
{
    if records.len() == 0 {
        assert(lines(encode_records(records)) =~= record_lines(records));
    } else {
        let front = records.drop_last();
        assert forall|i: int| 0 <= i < front.len() implies readable(#[trigger] front[i]) by {
            assert(front[i] == records[i]);
        }
        lemma_lines_of_records(front);
        assert(readable(records[records.len() - 1]));
        lemma_record_line(records.last());
        lemma_lines_push(encode_records(front), record_line(records.last()));
        assert(lines(encode_records(records)) =~= record_lines(records));
    }
}

/// The lines of items that can be read back are read as the logs of the
/// items, and the date of each is read.
pub proof fn lemma_logs_of_record_lines(records: Seq<LogRecord>)
    requires
        forall|i: int| 0 <= i < records.len() ==> readable(#[trigger] records[i]),
    ensures
        logs_of_lines(record_lines(records)) == logs_of_records(records),
        dates_readable(record_lines(records), records.len() as int),
    decreases records.len(),
{
    let ls = record_lines(records);
    if records.len() > 0 {
        let front = records.drop_last();
        assert forall|i: int| 0 <= i < front.len() implies readable(#[trigger] front[i]) by {
            assert(front[i] == records[i]);
        }
        lemma_logs_of_record_lines(front);
        assert(readable(records[records.len() - 1]));
        lemma_record_line(records.last());
        assert(ls.drop_last() =~= record_lines(front));
        assert(ls.last() == record_line(records.last()));
        assert forall|i: int| 0 <= i < records.len() implies !(read_line(#[trigger] ls[i]) is BadDate) by {
            if i < front.len() {
                assert(ls[i] == record_lines(front)[i]);
            }
        }
    }
}

/// What the logs of the items hold under `key` is what the items logged
/// under `key` are read back as; they hold nothing where there are no such
/// items.
pub proof fn lemma_logs_under(records: Seq<LogRecord>, key: (Seq<char>, Date))
    ensures
        logs_of_records(records).contains_key(key) <==> records_under(records, key).len() > 0,
        value_or(logs_of_records(records), key, Seq::empty()) == loaded_meals(
            records_under(records, key),
        ),
    decreases records.len(),
{
    if records.len() == 0 {
        assert(loaded_meals(records_under(records, key)) =~= Seq::<MealView>::empty());
    } else {
        let front = records.drop_last();
        let last = records.last();
        lemma_logs_under(front, key);
        lemma_logs_under(front, (last.user, last.date));
        if (last.user, last.date) == key {
            assert(loaded_meals(records_under(records, key)) =~= loaded_meals(
                records_under(front, key),
            ).push(loaded_meal(last)));
        }
    }
}

/// The items of two sequences put end to end that were logged under `key`
/// are those of the first, then those of the second.
pub proof fn lemma_records_under_concat(a: Seq<LogRecord>, b: Seq<LogRecord>, key: (Seq<char>, Date))
    ensures
        records_under(a + b, key) == records_under(a, key) + records_under(b, key),
    decreases b.len(),
{
    if b.len() == 0 {
        assert(a + b =~= a);
        assert(records_under(a, key) + records_under(b, key) =~= records_under(a, key));
    } else {
        lemma_records_under_concat(a, b.drop_last(), key);
        assert((a + b).drop_last() =~= a + b.drop_last());
        assert((a + b).last() == b.last());
        assert(records_under(a + b, key) =~= records_under(a, key) + records_under(b, key));
    }
}

/// Of items that were all logged under one key, all were logged under that
/// key and none under another.
pub proof fn lemma_records_under_one_key(
    records: Seq<LogRecord>,
    logged: (Seq<char>, Date),
    key: (Seq<char>, Date),
)
    requires
        forall|i: int|
            0 <= i < records.len() ==> ((#[trigger] records[i]).user, records[i].date) == logged,
    ensures
        records_under(records, key) == if key == logged {
            records
        } else {
            Seq::empty()
        },
    decreases records.len(),
{
    if records.len() > 0 {
        let front = records.drop_last();
        assert forall|i: int| 0 <= i < front.len() implies ((#[trigger] front[i]).user, front[i].date)
            == logged by {
            assert(front[i] == records[i]);
        }
        lemma_records_under_one_key(front, logged, key);
        assert((records[records.len() - 1].user, records[records.len() - 1].date) == logged);
        if key == logged {
            assert(front.push(records.last()) =~= records);
        }
    } else {
        assert(records =~= Seq::<LogRecord>::empty());
    }
}

/// The items of the meals of one log were all logged by its user on its
/// date; they are as many as the items of the meals.
pub proof fn lemma_records_of_meals(user: Seq<char>, date: Date, meals: Seq<MealView>)
    ensures
        records_of_meals(user, date, meals).len() == item_count(meals),
        forall|i: int|
            0 <= i < records_of_meals(user, date, meals).len() ==> ((#[trigger] records_of_meals(
                user,
                date,
                meals,
            )[i]).user, records_of_meals(user, date, meals)[i].date) == (user, date),
    decreases meals.len(),
{
    if meals.len() > 0 {
        lemma_records_of_meals(user, date, meals.drop_last());
        let all = records_of_meals(user, date, meals);
        let front = records_of_meals(user, date, meals.drop_last());
        let tail = records_of_meal(user, date, meals.last());
        assert forall|i: int| 0 <= i < all.len() implies ((#[trigger] all[i]).user, all[i].date) == (
            user,
            date,
        ) by {
            if i < front.len() {
                assert(all[i] == front[i]);
            } else {
                assert(all[i] == tail[i - front.len()]);
            }
        }
    }
}

/// Where no user has two logs of one date, the items logged under the key
/// of a log are the items of the meals of that log.
pub proof fn lemma_records_of_log(entries: Seq<((Seq<char>, Date), Seq<MealView>)>, i: int)
    requires
        distinct_keys(entries),
        0 <= i < entries.len(),
    ensures
        records_under(records_of_logs(entries), entries[i].0) == records_of_meals(
            entries[i].0.0,
            entries[i].0.1,
            entries[i].1,
        ),
    decreases entries.len(),
{
    let front = entries.drop_last();
    let last = entries.last();
    let key = entries[i].0;
    let tail = records_of_meals(last.0.0, last.0.1, last.1);
    lemma_records_under_concat(records_of_logs(front), tail, key);
    lemma_records_of_meals(last.0.0, last.0.1, last.1);
    lemma_records_under_one_key(tail, (last.0.0, last.0.1), key);
    assert(last == entries[entries.len() - 1]);
    if i == entries.len() - 1 {
        lemma_records_absent(front, key);
        assert(records_under(records_of_logs(entries), key) =~= tail);
    } else {
        assert forall|a: int, b: int| 0 <= a < b < front.len() implies (#[trigger] front[a]).0 != (
        #[trigger] front[b]).0 by {
            assert(entries[a].0 != entries[b].0);
        }
        assert(front[i] == entries[i]);
        lemma_records_of_log(front, i);
        assert(entries[i].0 != entries[entries.len() - 1].0);
        assert(records_under(records_of_logs(entries), key) =~= records_of_meals(
            key.0,
            key.1,
            entries[i].1,
        ));
    }
}

/// No item was logged under a key that no log has.
pub proof fn lemma_records_absent(
    entries: Seq<((Seq<char>, Date), Seq<MealView>)>,
    key: (Seq<char>, Date),
)
    requires
        forall|i: int| 0 <= i < entries.len() ==> (#[trigger] entries[i]).0 != key,
    ensures
        records_under(records_of_logs(entries), key) == Seq::<LogRecord>::empty(),
    decreases entries.len(),
{
    if entries.len() > 0 {
        let front = entries.drop_last();
        let last = entries.last();
        assert forall|i: int| 0 <= i < front.len() implies (#[trigger] front[i]).0 != key by {
            assert(front[i] == entries[i]);
        }
        lemma_records_absent(front, key);
        let tail = records_of_meals(last.0.0, last.0.1, last.1);
        lemma_records_under_concat(records_of_logs(front), tail, key);
        lemma_records_of_meals(last.0.0, last.0.1, last.1);
        lemma_records_under_one_key(tail, (last.0.0, last.0.1), key);
        assert(entries[entries.len() - 1].0 != key);
        assert(records_under(records_of_logs(entries), key) =~= Seq::<LogRecord>::empty());
    }
}

/// The contributions of days put end to end.
pub proof fn lemma_day_terms_concat(
    a: Seq<MealView>,
    b: Seq<MealView>,
    catalog: Map<Seq<char>, ProductView>,
)
    ensures
        day_terms(a + b, catalog) == day_terms(a, catalog) + day_terms(b, catalog),
    decreases b.len(),
{
    if b.len() == 0 {
        assert(a + b =~= a);
        assert(day_terms(a, catalog) + day_terms(b, catalog) =~= day_terms(a, catalog));
    } else {
        lemma_day_terms_concat(a, b.drop_last(), catalog);
        assert((a + b).drop_last() =~= a + b.drop_last());
        assert((a + b).last() == b.last());
        assert(day_terms(a + b, catalog) =~= day_terms(a, catalog) + day_terms(b, catalog));
    }
}

/// The first `k` items of a meal with a positive serving multiplier, read
/// back as meals of their own, contribute what these items contribute in the
/// meal.
pub proof fn lemma_loaded_items(
    user: Seq<char>,
    date: Date,
    meal: MealView,
    catalog: Map<Seq<char>, ProductView>,
    k: int,
)
    requires
        meal.servings.millis > 0,
        0 <= k <= meal.items.len(),
    ensures
        day_terms(loaded_meals(records_of_meal(user, date, meal).take(k)), catalog) == meal_terms(
            meal,
            catalog,
        ).take(k),
    decreases k,
{
    let records = records_of_meal(user, date, meal);
    let loaded = loaded_meals(records.take(k));
    if k == 0 {
        assert(day_terms(loaded, catalog) =~= meal_terms(meal, catalog).take(k));
    } else {
        lemma_loaded_items(user, date, meal, catalog, k - 1);
        assert(loaded.drop_last() =~= loaded_meals(records.take(k - 1)));
        let single = loaded.last();
        assert(single == loaded_meal(records[k - 1]));
        assert(meal_terms(single, catalog) =~= seq![meal_terms(meal, catalog)[k - 1]]);
        assert(day_terms(loaded, catalog) =~= meal_terms(meal, catalog).take(k));
    }
}

/// The items of meals with positive serving multipliers, read back as meals
/// of their own, contribute what they contribute in their meals.
pub proof fn lemma_loaded_terms(
    user: Seq<char>,
    date: Date,
    meals: Seq<MealView>,
    catalog: Map<Seq<char>, ProductView>,
)
    requires
        forall|j: int| 0 <= j < meals.len() ==> (#[trigger] meals[j]).servings.millis > 0,
    ensures
        day_terms(loaded_meals(records_of_meals(user, date, meals)), catalog) == day_terms(
            meals,
            catalog,
        ),
    decreases meals.len(),
{
    if meals.len() == 0 {
        assert(loaded_meals(records_of_meals(user, date, meals)) =~= Seq::<MealView>::empty());
    } else {
        let front = meals.drop_last();
        let meal = meals.last();
        assert forall|j: int| 0 <= j < front.len() implies (#[trigger] front[j]).servings.millis
            > 0 by {
            assert(front[j] == meals[j]);
        }
        lemma_loaded_terms(user, date, front, catalog);
        assert(meals[meals.len() - 1].servings.millis > 0);
        lemma_loaded_items(user, date, meal, catalog, meal.items.len() as int);
        let a = records_of_meals(user, date, front);
        let b = records_of_meal(user, date, meal);
        assert(b.take(meal.items.len() as int) =~= b);
        assert(meal_terms(meal, catalog).take(meal.items.len() as int) =~= meal_terms(meal, catalog));
        assert(loaded_meals(a + b) =~= loaded_meals(a) + loaded_meals(b));
        lemma_day_terms_concat(loaded_meals(a), loaded_meals(b), catalog);
    }
}

/// What is left of a log after the logs were written and read back: under
/// the log's user and date stand its items, each as a meal of its own, if
/// it has any; and the intake of the day is what it was.
pub proof fn lemma_reload_keeps_totals(
    entries: Seq<((Seq<char>, Date), Seq<MealView>)>,
    i: int,
    catalog: Map<Seq<char>, ProductView>,
)
    requires
        distinct_keys(entries),
        positive_servings(entries),
        0 <= i < entries.len(),
    ensures
        logs_of_records(records_of_logs(entries)).contains_key(entries[i].0) <==> item_count(
            entries[i].1,
        ) > 0,
        value_or(logs_of_records(records_of_logs(entries)), entries[i].0, Seq::empty())
            == loaded_meals(records_of_meals(entries[i].0.0, entries[i].0.1, entries[i].1)),
        day_total(
            value_or(logs_of_records(records_of_logs(entries)), entries[i].0, Seq::empty()),
            catalog,
        ) == day_total(entries[i].1, catalog),
{
    let key = entries[i].0;
    let meals = entries[i].1;
    lemma_logs_under(records_of_logs(entries), key);
    lemma_records_of_log(entries, i);
    lemma_records_of_meals(key.0, key.1, meals);
    assert forall|j: int| 0 <= j < meals.len() implies (#[trigger] meals[j]).servings.millis > 0 by {
        assert(entries[i].1[j].servings.millis > 0);
    }
    lemma_loaded_terms(key.0, key.1, meals, catalog);
}

/// After the logs were written and read back, no user has a log of a date
/// on which the user had none before.
pub proof fn lemma_reload_adds_no_log(
    entries: Seq<((Seq<char>, Date), Seq<MealView>)>,
    key: (Seq<char>, Date),
)
    requires
        !has_key(entries, key),
    ensures
        !logs_of_records(records_of_logs(entries)).contains_key(key),
{
    lemma_logs_under(records_of_logs(entries), key);
    lemma_records_absent(entries, key);
}

/// Every item of logs whose names are plain and whose dates are read back
/// can be read back.
pub proof fn lemma_records_readable(entries: Seq<((Seq<char>, Date), Seq<MealView>)>)
    requires
        plain_names(entries),
        dates_read_back(entries),
    ensures
        forall|r: int|
            0 <= r < records_of_logs(entries).len() ==> readable(#[trigger] records_of_logs(entries)[r]),
    decreases entries.len(),
{
    if entries.len() > 0 {
        let front = entries.drop_last();
        let last = entries.last();
        assert(last == entries[entries.len() - 1]);
        assert forall|i: int| 0 <= i < front.len() implies is_field((#[trigger] front[i]).0.0)
            && forall|j: int, k: int|
            0 <= j < front[i].1.len() && 0 <= k < front[i].1[j].items.len() ==> is_field(
                (#[trigger] front[i].1[j].items[k]).0,
            ) by {
            assert(front[i] == entries[i]);
        }
        assert forall|i: int| 0 <= i < front.len() implies Date::parsed(
            (#[trigger] front[i]).0.1.text(),
        ) == Some(front[i].0.1) by {
            assert(front[i] == entries[i]);
        }
        lemma_records_readable(front);
        lemma_meal_records_readable(last.0.0, last.0.1, last.1);
        let all = records_of_logs(entries);
        let a = records_of_logs(front);
        let b = records_of_meals(last.0.0, last.0.1, last.1);
        assert forall|r: int| 0 <= r < all.len() implies readable(#[trigger] all[r]) by {
            if r < a.len() {
                assert(all[r] == a[r]);
            } else {
                assert(all[r] == b[r - a.len()]);
            }
        }
    }
}

/// Every item of the meals of a log whose names are plain and whose date is
/// read back can be read back.
pub proof fn lemma_meal_records_readable(user: Seq<char>, date: Date, meals: Seq<MealView>)
    requires
        is_field(user),
        Date::parsed(date.text()) == Some(date),
        forall|j: int, k: int|
            0 <= j < meals.len() && 0 <= k < meals[j].items.len() ==> is_field(
                (#[trigger] meals[j].items[k]).0,
            ),
    ensures
        forall|r: int|
            0 <= r < records_of_meals(user, date, meals).len() ==> readable(
                #[trigger] records_of_meals(user, date, meals)[r],
            ),
    decreases meals.len(),
{
    if meals.len() > 0 {
        let front = meals.drop_last();
        let meal = meals.last();
        assert(meal == meals[meals.len() - 1]);
        assert forall|j: int, k: int|
            0 <= j < front.len() && 0 <= k < front[j].items.len() implies is_field(
            (#[trigger] front[j].items[k]).0,
        ) by {
            assert(front[j] == meals[j]);
            assert(is_field(meals[j].items[k].0));
        }
        lemma_meal_records_readable(user, date, front);
        let all = records_of_meals(user, date, meals);
        let a = records_of_meals(user, date, front);
        let b = records_of_meal(user, date, meal);
        assert forall|r: int| 0 <= r < all.len() implies readable(#[trigger] all[r]) by {
            if r < a.len() {
                assert(all[r] == a[r]);
            } else {
                let k = r - a.len();
                assert(all[r] == b[k]);
                assert(is_field(meals[meals.len() - 1].items[k].0));
            }
        }
    }
}

/// Writes the logs as text and reads the text back.
///
/// Where the names of all users and products are free of commas and line
/// feeds, the reading succeeds, and the logs read are those of the items of
/// `store`, each logged in turn as a meal of its own.
pub fn reload(store: &LogStore) -> (r: Result<LogStore, BadDate>)
    requires
        store.wf(),
    ensures
        match r {
            Ok(back) => back.wf() && back@ == logs_of_lines(lines(encode_logs(store.entries()))),
            Err(bad) => bad.line < lines(encode_logs(store.entries())).len() && read_line(
                lines(encode_logs(store.entries()))[bad.line as int],
            ) is BadDate,
        },
        plain_names(store.entries()) ==> (r matches Ok(back) && back@ == logs_of_records(
            records_of_logs(store.entries()),
        )),
{
    let text = encode_log_store(store);
    proof {
        if plain_names(store.entries()) {
            let records = records_of_logs(store.entries());
            lemma_records_readable(store.entries());
            lemma_lines_of_records(records);
            lemma_logs_of_record_lines(records);
        }
    }
    decode_logs(text.as_str())
}

} // verus!
