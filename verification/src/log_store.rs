//! The store of daily logs: one log for each user and date on which the
//! user logged a meal.

use vstd::prelude::*;
use crate::assoc::{
    distinct_keys, has_key, lemma_index_of_key, lemma_to_map_at, lemma_to_map_keys,
    lemma_to_map_put, put, to_map, value_or,
};
use crate::daily_log::DailyLog;
use crate::date::Date;
use crate::meal::{Meal, MealView};
use crate::text::same_text;

verus! {

/// Whether every meal of every log has a positive serving multiplier.
pub open spec fn positive_servings(entries: Seq<((Seq<char>, Date), Seq<MealView>)>) -> bool {
    forall|i: int, j: int|
        0 <= i < entries.len() && 0 <= j < entries[i].1.len() ==> (#[trigger] entries[i].1[j]).servings.millis
            > 0
}

/// A daily log under the name of its user.
struct LogEntry {
    username: String,
    log: DailyLog,
}

/// The daily logs of all users, one for each user and date.
pub struct LogStore {
    entries: Vec<LogEntry>,
}

impl LogStore {
    /// The meals of each user and date, in the order in which the pairs of
    /// user and date first had a meal logged.
    pub closed spec fn entries(&self) -> Seq<((Seq<char>, Date), Seq<MealView>)> {
        Seq::new(
            self.entries@.len(),
            |i: int| ((self.entries@[i].username@, self.entries@[i].log@.date), self.entries@[i].log@.meals),
        )
    }

    /// No user has two logs of one date, and every meal has a positive
    /// serving multiplier.
    pub open spec fn wf(&self) -> bool {
        distinct_keys(self.entries()) && positive_servings(self.entries())
    }

    /// The meals logged by each user on each date, in the order in which
    /// they were logged.
    pub open spec fn view(&self) -> Map<(Seq<char>, Date), Seq<MealView>> {
        to_map(self.entries())
    }

    /// A store without logs.
    pub fn new() -> (store: LogStore)
        ensures
            store.wf(),
            store.entries() == Seq::<((Seq<char>, Date), Seq<MealView>)>::empty(),
            store@ == Map::<(Seq<char>, Date), Seq<MealView>>::empty(),
    {
        let store = LogStore { entries: Vec::new() };
        assert(store.entries() =~= Seq::empty());
        store
    }

    /// The number of logs.
    pub fn len(&self) -> (n: usize)
        ensures
            n == self.entries().len(),
    {
        self.entries.len()
    }

    /// The user and the log at place `i` of `entries()`.
    pub fn entry(&self, i: usize) -> (pair: (&str, &DailyLog))
        requires
            i < self.entries().len(),
        ensures
            ((pair.0@, pair.1@.date), pair.1@.meals) == self.entries()[i as int],
    {
        (self.entries[i].username.as_str(), &self.entries[i].log)
    }

    /// The place of the log of `username` on `date`.
    fn position(&self, username: &str, date: Date) -> (at: Option<usize>)
        ensures
            match at {
                Some(i) => i < self.entries().len() && self.entries()[i as int].0 == (username@, date),
                None => !has_key(self.entries(), (username@, date)),
            },
    {
        let mut i: usize = 0;
        while i < self.entries.len()
            invariant
                i <= self.entries.len(),
                forall|j: int| 0 <= j < i ==> (#[trigger] self.entries()[j]).0 != (username@, date),
            decreases self.entries.len() - i,
        {
            if same_text(self.entries[i].username.as_str(), username) && self.entries[i].log.date().same_day(
                date,
            ) {
                return Some(i);
            }
            i += 1;
        }
        None
    }

    /// The log of `username` on `date`, if the user logged a meal then.
    pub fn log(&self, username: &str, date: Date) -> (found: Option<&DailyLog>)
        requires
            self.wf(),
        ensures
            match found {
                Some(log) => self@.contains_key((username@, date)) && log@.date == date && log@.meals
                    == self@[(username@, date)],
                None => !self@.contains_key((username@, date)),
            },
    {
        proof {
            lemma_to_map_keys(self.entries(), (username@, date));
        }
        match self.position(username, date) {
            Some(i) => {
                proof {
                    lemma_to_map_at(self.entries(), i as int);
                }
                Some(&self.entries[i].log)
            },
            None => None,
        }
    }

    /// Logs `meal` for `username` on `date`: after the meals that the user
    /// logged on that date before, or as the first meal of a new log.
    pub fn log_meal(&mut self, username: &str, date: Date, meal: Meal)
        requires
            old(self).wf(),
        ensures
            final(self).wf(),
            final(self).entries() == put(
                old(self).entries(),
                (username@, date),
                value_or(old(self)@, (username@, date), Seq::empty()).push(meal@),
            ),
            final(self)@ == old(self)@.insert(
                (username@, date),
                value_or(old(self)@, (username@, date), Seq::empty()).push(meal@),
            ),
    {
        let ghost key = (username@, date);
        let ghost meals = value_or(old(self)@, key, Seq::empty()).push(meal@);
        let servings = meal.servings();
        proof {
            lemma_to_map_put(self.entries(), key, meals);
            lemma_to_map_keys(self.entries(), key);
        }
        match self.position(username, date) {
            Some(i) => {
                proof {
                    lemma_index_of_key(self.entries(), i as int);
                    lemma_to_map_at(self.entries(), i as int);
                }
                self.entries[i].log.push(meal);
                assert(self.entries() =~= old(self).entries().update(i as int, (key, meals)));
                assert forall|a: int, b: int|
                    0 <= a < self.entries().len() && 0 <= b < self.entries()[a].1.len() implies (
                #[trigger] self.entries()[a].1[b]).servings.millis > 0 by {
                    if a != i {
                        assert(self.entries()[a] == old(self).entries()[a]);
                        assert(old(self).entries()[a].1[b].servings.millis > 0);
                    } else if b < meals.len() - 1 {
                        assert(meals[b] == old(self).entries()[a].1[b]);
                        assert(old(self).entries()[a].1[b].servings.millis > 0);
                    }
                }
            },
            None => {
                let mut log = DailyLog::new(date);
                log.push(meal);
                self.entries.push(LogEntry { username: username.to_owned(), log });
                assert(self.entries() =~= old(self).entries().push((key, meals)));
                assert(meals =~= seq![meal@]);
                assert forall|a: int, b: int|
                    0 <= a < self.entries().len() && 0 <= b < self.entries()[a].1.len() implies (
                #[trigger] self.entries()[a].1[b]).servings.millis > 0 by {
                    if a < old(self).entries().len() {
                        assert(self.entries()[a] == old(self).entries()[a]);
                        assert(old(self).entries()[a].1[b].servings.millis > 0);
                    }
                }
            },
        }
    }

    /// Logs `meal` for `username` on the date of today, and gives that date.
    pub fn log_meal_today(&mut self, username: &str, meal: Meal) -> (date: Date)
        requires
            old(self).wf(),
        ensures
            final(self).wf(),
            final(self).entries() == put(
                old(self).entries(),
                (username@, date),
                value_or(old(self)@, (username@, date), Seq::empty()).push(meal@),
            ),
            final(self)@ == old(self)@.insert(
                (username@, date),
                value_or(old(self)@, (username@, date), Seq::empty()).push(meal@),
            ),
    {
        let date = Date::today();
        self.log_meal(username, date, meal);
        date
    }

    /// The logs of `username`, the latest date first.
    pub fn query(&self, username: &str) -> (logs: Vec<&DailyLog>)
        requires
            self.wf(),
        ensures
            forall|i: int|
                0 <= i < logs.len() ==> self@.contains_key((username@, (#[trigger] logs[i])@.date))
                    && self@[(username@, logs[i]@.date)] == logs[i]@.meals,
            forall|date: Date| #[trigger]
                self@.contains_key((username@, date)) ==> exists|i: int|
                    0 <= i < logs.len() && (#[trigger] logs[i])@.date == date,
            forall|i: int, j: int|
                0 <= i < j < logs.len() ==> (#[trigger] logs[i])@.date.rank() > (
                #[trigger] logs[j])@.date.rank(),
    {
        let order = self.order_of(username);
        let count: usize = self.entries.len();
        let mut logs: Vec<&DailyLog> = Vec::new();
        let mut k: usize = 0;
        while k < order.len()
            invariant
                k <= order.len(),
                logs.len() == k,
                self.descending(order@),
                forall|a: int| 0 <= a < k ==> *(#[trigger] logs[a]) == self.entries@[order[a] as int].log,
            decreases order.len() - k,
        {
            logs.push(&self.entries[order[k]].log);
            k += 1;
        }
        proof {
            let pairs = self.entries();
            assert forall|i: int| 0 <= i < logs.len() implies self@.contains_key(
                (username@, (#[trigger] logs[i])@.date),
            ) && self@[(username@, logs[i]@.date)] == logs[i]@.meals by {
                let e = order[i] as int;
                assert(pairs[e].0 == (username@, logs[i]@.date));
                lemma_to_map_at(pairs, e);
            }
            assert forall|date: Date| #[trigger]
                self@.contains_key((username@, date)) implies exists|i: int|
                0 <= i < logs.len() && (#[trigger] logs[i])@.date == date by {
                lemma_to_map_keys(pairs, (username@, date));
                let e = choose|e: int| 0 <= e < pairs.len() && (#[trigger] pairs[e]).0 == (username@, date);
                assert(0 <= e < count);
                assert(self.entries@[e].username@ == username@);
                assert(self.entries@[e].log@.date == date);
                assert(order@.contains(e as usize));
                let a = choose|a: int| 0 <= a < order.len() && order[a] == e as usize;
                assert(*logs[a] == self.entries@[order[a] as int].log);
                assert(logs[a]@.date == date);
            }
            assert forall|i: int, j: int| 0 <= i < j < logs.len() implies (#[trigger] logs[i])@.date.rank()
                > (#[trigger] logs[j])@.date.rank() by {
                assert(self.rank_at(order[i] as int) > self.rank_at(order[j] as int));
            }
        }
        logs
    }

    /// The rank of the date of the log at place `e`.
    spec fn rank_at(&self, e: int) -> int {
        self.entries@[e].log@.date.rank()
    }

    /// Whether `order` holds places of logs, each of a later date than the
    /// next.
    spec fn descending(&self, order: Seq<usize>) -> bool {
        &&& forall|a: int| 0 <= a < order.len() ==> (#[trigger] order[a]) < self.entries@.len()
        &&& forall|a: int, b: int|
            0 <= a < b < order.len() ==> self.rank_at((#[trigger] order[a]) as int) > self.rank_at(
                (#[trigger] order[b]) as int,
            )
    }

    /// Puts the place `n` into `order` before the first place of an earlier
    /// date.
    fn place(&self, order: &mut Vec<usize>, n: usize) -> (p: usize)
        requires
            n < self.entries@.len(),
            self.descending(old(order)@),
            forall|a: int|
                0 <= a < old(order)@.len() ==> self.entries@[(#[trigger] old(order)@[a]) as int].log@.date
                    != self.entries@[n as int].log@.date,
        ensures
            p <= old(order)@.len(),
            final(order)@ == old(order)@.insert(p as int, n),
            self.descending(final(order)@),
    {
        let date = self.entries[n].log.date();
        let mut p: usize = 0;
        while p < order.len() && date.is_before(self.entries[order[p]].log.date())
            invariant
                p <= order.len(),
                order@ == old(order)@,
                n < self.entries@.len(),
                date == self.entries@[n as int].log@.date,
                forall|a: int| 0 <= a < order.len() ==> (#[trigger] order[a]) < self.entries@.len(),
                forall|a: int| 0 <= a < p ==> self.rank_at((#[trigger] order[a]) as int) > date.rank(),
            decreases order.len() - p,
        {
            p += 1;
        }
        let ghost before = order@;
        proof {
            if p < order.len() {
                assert(self.rank_at(before[p as int] as int) < date.rank());
            }
        }
        order.insert(p, n);
        proof {
            let after = order@;
            assert forall|a: int, b: int| 0 <= a < b < after.len() implies self.rank_at(
                (#[trigger] after[a]) as int,
            ) > self.rank_at((#[trigger] after[b]) as int) by {
                if b < p {
                    assert(after[a] == before[a] && after[b] == before[b]);
                } else if b == p {
                    assert(after[a] == before[a]);
                } else if a < p {
                    assert(after[a] == before[a] && after[b] == before[b - 1]);
                    if b - 1 > p {
                        assert(self.rank_at(before[p as int] as int) > self.rank_at(before[b - 1] as int));
                    }
                } else if a == p {
                    assert(after[b] == before[b - 1]);
                    if b - 1 > p {
                        assert(self.rank_at(before[p as int] as int) > self.rank_at(before[b - 1] as int));
                    }
                } else {
                    assert(after[a] == before[a - 1] && after[b] == before[b - 1]);
                }
            }
            assert forall|a: int| 0 <= a < after.len() implies (#[trigger] after[a]) < self.entries@.len() by {
                if a < p {
                    assert(after[a] == before[a]);
                } else if a > p {
                    assert(after[a] == before[a - 1]);
                }
            }
        }
        p
    }

    /// Whether `order` holds the places below `n` of the logs of `username`,
    /// and no others.
    spec fn lists(&self, order: Seq<usize>, username: Seq<char>, n: int) -> bool {
        &&& forall|a: int|
            0 <= a < order.len() ==> (#[trigger] order[a]) < n && self.entries@[order[a] as int].username@
                == username
        &&& forall|e: int|
            0 <= e < n && (#[trigger] self.entries@[e]).username@ == username ==> order.contains(
                e as usize,
            )
    }

    /// The places of the logs of `username`, the latest date first.
    fn order_of(&self, username: &str) -> (order: Vec<usize>)
        requires
            self.wf(),
        ensures
            self.lists(order@, username@, self.entries@.len() as int),
            self.descending(order@),
    {
        let mut order: Vec<usize> = Vec::new();
        let mut n: usize = 0;
        while n < self.entries.len()
            invariant
                n <= self.entries.len(),
                self.wf(),
                self.lists(order@, username@, n as int),
                self.descending(order@),
            decreases self.entries.len() - n,
        {
            if same_text(self.entries[n].username.as_str(), username) {
                let ghost before = order@;
                proof {
                    assert forall|a: int| 0 <= a < before.len() implies self.entries@[(
                    #[trigger] before[a]) as int].log@.date != self.entries@[n as int].log@.date by {
                        let e = before[a] as int;
                        assert(self.entries()[e].0 != self.entries()[n as int].0);
                    }
                }
                let p = self.place(&mut order, n);
                proof {
                    let after = order@;
                    assert forall|a: int| 0 <= a < after.len() implies (#[trigger] after[a]) < n + 1
                        && self.entries@[after[a] as int].username@ == username@ by {
                        if a < p {
                            assert(after[a] == before[a]);
                        } else if a > p {
                            assert(after[a] == before[a - 1]);
                        }
                    }
                    assert forall|e: int|
                        0 <= e < n + 1 && (#[trigger] self.entries@[e]).username@
                            == username@ implies after.contains(e as usize) by {
                        if e < n {
                            assert(before.contains(e as usize));
                            let a = choose|a: int| 0 <= a < before.len() && before[a] == e as usize;
                            if a < p {
                                assert(after[a] == e as usize);
                            } else {
                                assert(after[a + 1] == e as usize);
                            }
                        } else {
                            assert(after[p as int] == e as usize);
                        }
                    }
                }
            }
            n += 1;
        }
        order
    }
}

} // verus!
