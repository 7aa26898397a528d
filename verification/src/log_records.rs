//! The daily logs as text: one line for each logged item, of the form
//! `username,date,servings,product,quantity`.
//!
//! A line names neither the meal that its item was logged in nor the items
//! that were logged with it: read back, each item is a meal of its own.

use vstd::prelude::*;
use crate::amount::{millis_text, Amount};
use crate::assoc::value_or;
use crate::daily_log::DailyLog;
use crate::date::Date;
use crate::log_store::LogStore;
use crate::meal::{items_view, normal_servings, Meal, MealItem, MealView};
use crate::records::{amount_or, read_amount_or};
use crate::text::{lines, push_str, rows, split, split_fields, split_lines, to_chars, to_text};

verus! {

/// One logged item.
pub struct LogRecord {
    pub user: Seq<char>,
    pub date: Date,
    pub servings: Amount,
    pub product: Seq<char>,
    pub quantity: Amount,
}

/// The line of a logged item.
pub open spec fn record_line(record: LogRecord) -> Seq<char> {
    record.user + seq![','] + record.date.text() + seq![','] + millis_text(record.servings.value())
        + seq![','] + record.product + seq![','] + millis_text(record.quantity.value())
}

/// The items of a meal logged by `user` on `date`, in their order.
pub open spec fn records_of_meal(user: Seq<char>, date: Date, meal: MealView) -> Seq<LogRecord> {
    Seq::new(
        meal.items.len(),
        |i: int|
            LogRecord {
                user,
                date,
                servings: meal.servings,
                product: meal.items[i].0,
                quantity: meal.items[i].1,
            },
    )
}

/// The items of the meals logged by `user` on `date`, meal after meal.
pub open spec fn records_of_meals(user: Seq<char>, date: Date, meals: Seq<MealView>) -> Seq<LogRecord>
    decreases meals.len(),
{
    if meals.len() == 0 {
        Seq::empty()
    } else {
        records_of_meals(user, date, meals.drop_last()) + records_of_meal(user, date, meals.last())
    }
}

/// The items of all logs, log after log.
pub open spec fn records_of_logs(entries: Seq<((Seq<char>, Date), Seq<MealView>)>) -> Seq<LogRecord>
    decreases entries.len(),
{
    if entries.len() == 0 {
        Seq::empty()
    } else {
        records_of_logs(entries.drop_last()) + records_of_meals(
            entries.last().0.0,
            entries.last().0.1,
            entries.last().1,
        )
    }
}

/// The text of logged items: the line of each, in order, each with a line
/// feed after it.
pub open spec fn encode_records(records: Seq<LogRecord>) -> Seq<char>
    decreases records.len(),
{
    if records.len() == 0 {
        Seq::empty()
    } else {
        encode_records(records.drop_last()) + record_line(records.last()) + seq!['\n']
    }
}

/// The text of the logs: a line for each item of each meal of each log.
pub open spec fn encode_logs(entries: Seq<((Seq<char>, Date), Seq<MealView>)>) -> Seq<char> {
    encode_records(records_of_logs(entries))
}

/// What a line of the text of logs is read as.
pub enum LineReading {
    /// The line has not five fields and is passed over.
    Skipped,
    /// The line has five fields, and the second is no date.
    BadDate,
    /// The line stands for a logged item.
    Item(LogRecord),
}

/// What `line` is read as. Servings that are not a number count as 1, a
/// quantity that is not a number as 0.
pub open spec fn read_line(line: Seq<char>) -> LineReading {
    let fields = split(line, ',');
    if fields.len() != 5 {
        LineReading::Skipped
    } else {
        match Date::parsed(fields[1]) {
            None => LineReading::BadDate,
            Some(date) => LineReading::Item(
                LogRecord {
                    user: fields[0],
                    date,
                    servings: amount_or(fields[2], Amount { millis: 1000 }),
                    product: fields[3],
                    quantity: amount_or(fields[4], Amount { millis: 0 }),
                },
            ),
        }
    }
}

/// The name that a meal has when it was read from the text of logs.
pub open spec fn loaded_name() -> Seq<char> {
    seq!['L', 'o', 'a', 'd', 'e', 'd', ' ', 'M', 'e', 'a', 'l']
}

/// The meal that a logged item is read back as: a meal of this one item.
pub open spec fn loaded_meal(record: LogRecord) -> MealView {
    MealView {
        name: loaded_name(),
        items: seq![(record.product, record.quantity)],
        servings: normal_servings(record.servings),
    }
}

/// The logs after the item `record` is read: its meal is logged for its user
/// on its date.
pub open spec fn with_record(
    logs: Map<(Seq<char>, Date), Seq<MealView>>,
    record: LogRecord,
) -> Map<(Seq<char>, Date), Seq<MealView>> {
    logs.insert(
        (record.user, record.date),
        value_or(logs, (record.user, record.date), Seq::empty()).push(loaded_meal(record)),
    )
}

/// The logs that the lines stand for: the items are read in the order of the
/// lines.
pub open spec fn logs_of_lines(ls: Seq<Seq<char>>) -> Map<(Seq<char>, Date), Seq<MealView>>
    decreases ls.len(),
{
    if ls.len() == 0 {
        Map::empty()
    } else {
        match read_line(ls.last()) {
            LineReading::Item(record) => with_record(logs_of_lines(ls.drop_last()), record),
            _ => logs_of_lines(ls.drop_last()),
        }
    }
}

/// Whether no line among the first `n` has a second field that is no date.
pub open spec fn dates_readable(ls: Seq<Seq<char>>, n: int) -> bool {
    forall|i: int| 0 <= i < n ==> !(read_line(#[trigger] ls[i]) is BadDate)
}

/// A line of the text of logs that has five fields, the second of which is
/// no date.
#[derive(Clone, Copy, Debug, PartialEq, Eq)]
pub struct BadDate {
    /// The place of the line among the lines of the text, from 0.
    pub line: usize,
}

/// Logs the item of a line for `username` on `date`, as a meal of its own.
pub fn log_item(
    store: &mut LogStore,
    username: &str,
    date: Date,
    servings: Amount,
    product: &str,
    quantity: Amount,
)
    requires
        old(store).wf(),
    ensures
        final(store).wf(),
        final(store)@ == with_record(
            old(store)@,
            LogRecord { user: username@, date, servings, product: product@, quantity },
        ),
{
    proof {
        reveal_strlit("Loaded Meal");
        assert("Loaded Meal"@ =~= loaded_name());
    }
    let mut items: Vec<MealItem> = Vec::new();
    items.push(MealItem::new(product, quantity));
    assert(items_view(items@) =~= seq![(product@, quantity)]);
    let meal = Meal::new("Loaded Meal", items, servings);
    store.log_meal(username, date, meal);
}

/// The logs that `text` stands for, or the first line whose date cannot be
/// read.
pub fn decode_logs(text: &str) -> (r: Result<LogStore, BadDate>)
    ensures
        match r {
            Ok(store) => {
                &&& dates_readable(lines(text@), lines(text@).len() as int)
                &&& store.wf()
                &&& store@ == logs_of_lines(lines(text@))
            },
            Err(bad) => {
                &&& bad.line < lines(text@).len()
                &&& read_line(lines(text@)[bad.line as int]) is BadDate
                &&& dates_readable(lines(text@), bad.line as int)
            },
        },
{
    let chars = to_chars(text);
    let ls = split_lines(chars.as_slice());
    let mut store = LogStore::new();
    let mut i: usize = 0;
    assert(rows(ls@).take(0) =~= Seq::<Seq<char>>::empty());
    while i < ls.len()
        invariant
            i <= ls.len(),
            rows(ls@) == lines(text@),
            store.wf(),
            dates_readable(rows(ls@), i as int),
            store@ == logs_of_lines(rows(ls@).take(i as int)),
        decreases ls.len() - i,
    {
        let fields = split_fields(ls[i].as_slice(), ',');
        proof {
            assert(rows(ls@).take(i + 1).drop_last() =~= rows(ls@).take(i as int));
            assert(rows(ls@).take(i + 1).last() == ls[i as int]@);
            assert(rows(ls@)[i as int] == ls[i as int]@);
        }
        if fields.len() == 5 {
            proof {
                let parts = split(ls[i as int]@, ',');
                assert(parts[0] == fields[0]@ && parts[1] == fields[1]@ && parts[2] == fields[2]@
                    && parts[3] == fields[3]@ && parts[4] == fields[4]@);
            }
            let username = to_text(fields[0].as_slice());
            let date_text = to_text(fields[1].as_slice());
            let date = match Date::parse(date_text.as_str()) {
                Some(date) => date,
                None => {
                    return Err(BadDate { line: i });
                },
            };
            let servings = read_amount_or(fields[2].as_slice(), Amount::one());
            let product = to_text(fields[3].as_slice());
            let quantity = read_amount_or(fields[4].as_slice(), Amount::zero());
            log_item(&mut store, username.as_str(), date, servings, product.as_str(), quantity);
        }
        i += 1;
    }
    assert(rows(ls@).take(i as int) =~= rows(ls@));
    Ok(store)
}

/// Whether the date of each log, written as text, is read back as that
/// date.
pub open spec fn dates_read_back(entries: Seq<((Seq<char>, Date), Seq<MealView>)>) -> bool {
    forall|i: int|
        0 <= i < entries.len() ==> Date::parsed((#[trigger] entries[i]).0.1.text()) == Some(
            entries[i].0.1,
        )
}

/// The logs as text. The date of each log is written in a form that is read
/// back as that date.
pub fn encode_log_store(store: &LogStore) -> (text: String)
    ensures
        text@ == encode_logs(store.entries()),
        dates_read_back(store.entries()),
{
    let mut out: Vec<char> = Vec::new();
    let ghost entries = store.entries();
    let mut i: usize = 0;
    assert(entries.take(0) =~= Seq::empty());
    while i < store.len()
        invariant
            i <= entries.len(),
            entries == store.entries(),
            out@ == encode_records(records_of_logs(entries.take(i as int))),
            forall|a: int|
                0 <= a < i ==> Date::parsed((#[trigger] entries[a]).0.1.text()) == Some(
                    entries[a].0.1,
                ),
        decreases entries.len() - i,
    {
        let (username, log) = store.entry(i);
        encode_log(&mut out, username, log, Ghost(records_of_logs(entries.take(i as int))));
        proof {
            assert(entries.take(i + 1).drop_last() =~= entries.take(i as int));
            assert(entries.take(i + 1).last() == entries[i as int]);
        }
        i += 1;
    }
    assert(entries.take(i as int) =~= entries);
    to_text(out.as_slice())
}

/// Appends the line of an item logged by `username` to `out`, with a line
/// feed after it.
fn write_record(
    out: &mut Vec<char>,
    username: &str,
    date: Date,
    date_text: &str,
    servings: Amount,
    item: &MealItem,
)
    requires
        date_text@ == date.text(),
    ensures
        final(out)@ == old(out)@ + record_line(
            LogRecord {
                user: username@,
                date,
                servings,
                product: item.product@,
                quantity: item.quantity,
            },
        ) + seq!['\n'],
{
    push_str(out, username);
    out.push(',');
    push_str(out, date_text);
    out.push(',');
    servings.write(out);
    out.push(',');
    push_str(out, item.product.as_str());
    out.push(',');
    item.quantity.write(out);
    out.push('\n');
    assert(out@ =~= old(out)@ + record_line(
        LogRecord {
            user: username@,
            date,
            servings,
            product: item.product@,
            quantity: item.quantity,
        },
    ) + seq!['\n']);
}

/// Appends the lines of the items of `meal`, logged by `username` on `date`,
/// to the text of the items `before`.
fn encode_meal(
    out: &mut Vec<char>,
    username: &str,
    date: Date,
    date_text: &str,
    meal: &Meal,
    Ghost(before): Ghost<Seq<LogRecord>>,
)
    requires
        date_text@ == date.text(),
        old(out)@ == encode_records(before),
    ensures
        final(out)@ == encode_records(before + records_of_meal(username@, date, meal@)),
{
    let ghost items = records_of_meal(username@, date, meal@);
    let servings = meal.servings();
    let mut k: usize = 0;
    assert(before + items.take(0) =~= before);
    while k < meal.len()
        invariant
            k <= items.len(),
            items == records_of_meal(username@, date, meal@),
            items.len() == meal@.items.len(),
            servings == meal@.servings,
            date_text@ == date.text(),
            out@ == encode_records(before + items.take(k as int)),
        decreases items.len() - k,
    {
        let item = meal.item(k);
        write_record(out, username, date, date_text, servings, item);
        proof {
            let next = before + items.take(k + 1);
            assert(next.drop_last() =~= before + items.take(k as int));
            assert(next.last() == items[k as int]);
        }
        k += 1;
    }
    assert(items.take(k as int) =~= items);
}

/// Appends the lines of the items of `log`, logged by `username`, to the
/// text of the items `before`.
fn encode_log(out: &mut Vec<char>, username: &str, log: &DailyLog, Ghost(before): Ghost<Seq<LogRecord>>)
    requires
        old(out)@ == encode_records(before),
    ensures
        final(out)@ == encode_records(before + records_of_meals(username@, log@.date, log@.meals)),
        Date::parsed(log@.date.text()) == Some(log@.date),
{
    let ghost meals = log@.meals;
    let date = log.date();
    let date_text = date.to_text();
    let mut j: usize = 0;
    assert(meals.take(0) =~= Seq::<MealView>::empty());
    assert(before + records_of_meals(username@, date, meals.take(0)) =~= before);
    while j < log.len()
        invariant
            j <= meals.len(),
            meals == log@.meals,
            date == log@.date,
            date_text@ == date.text(),
            out@ == encode_records(before + records_of_meals(username@, date, meals.take(j as int))),
        decreases meals.len() - j,
    {
        let meal = log.meal(j);
        let ghost done = before + records_of_meals(username@, date, meals.take(j as int));
        encode_meal(out, username, date, date_text.as_str(), meal, Ghost(done));
        proof {
            assert(meals.take(j + 1).drop_last() =~= meals.take(j as int));
            assert(meals.take(j + 1).last() == meals[j as int]);
            assert(done + records_of_meal(username@, date, meal@) =~= before + records_of_meals(
                username@,
                date,
                meals.take(j + 1),
            ));
        }
        j += 1;
    }
    assert(meals.take(j as int) =~= meals);
}

} // verus!
