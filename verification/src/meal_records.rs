//! The stored meals as text: for each meal a line with its name, a line of
//! the form `product,quantity` for each item, and an empty line. The serving
//! multiplier is not written; a meal that is read has the multiplier 1.

use vstd::prelude::*;
use crate::amount::{millis_text, Amount};
use crate::meal::{items_view, Composer, Meal, MealItem, MealView};
use crate::records::{amount_or, lemma_amount_field, read_amount_or};
use crate::text::{
    free_of, is_field, lemma_lines_push, lemma_split_cons, lemma_split_single, lines, push_str,
    rows, split, split_fields, split_lines, strip_cr, to_chars, to_text,
};

verus! {

/// The lines of the items, each with a line feed after it.
pub open spec fn encode_items(items: Seq<(Seq<char>, Amount)>) -> Seq<char>
    decreases items.len(),
{
    if items.len() == 0 {
        Seq::empty()
    } else {
        encode_items(items.drop_last()) + items.last().0 + seq![','] + millis_text(
            items.last().1.value(),
        ) + seq!['\n']
    }
}

/// The text of the meals: for each, its name on a line, the lines of its
/// items, and an empty line.
pub open spec fn encode_meals(meals: Seq<MealView>) -> Seq<char>
    decreases meals.len(),
{
    if meals.len() == 0 {
        Seq::empty()
    } else {
        encode_meals(meals.drop_last()) + meals.last().name + seq!['\n'] + encode_items(
            meals.last().items,
        ) + seq!['\n']
    }
}

/// The item that a line stands for: a line of two fields gives an item,
/// with 0 for a quantity that is not a number; any other line gives none.
pub open spec fn item_of_line(line: Seq<char>) -> Option<(Seq<char>, Amount)> {
    let fields = split(line, ',');
    if fields.len() == 2 {
        Some((fields[0], amount_or(fields[1], Amount { millis: 0 })))
    } else {
        None
    }
}

/// Where the reading of the text of meals stands after some lines: the meals
/// that are complete, and the meal whose items are being read, if any.
pub struct MealsReading {
    pub complete: Seq<MealView>,
    pub current: Option<MealView>,
}

/// The reading after one more line. Where no meal is being read, the line,
/// empty or not, is the name of a new one. Else an empty line completes the
/// meal, a line that stands for an item adds the item, and any other line is
/// passed over.
pub open spec fn read_meal_line(reading: MealsReading, line: Seq<char>) -> MealsReading {
    match reading.current {
        None => MealsReading {
            complete: reading.complete,
            current: Some(
                MealView { name: line, items: Seq::empty(), servings: Amount { millis: 1000 } },
            ),
        },
        Some(meal) => if line.len() == 0 {
            MealsReading { complete: reading.complete.push(meal), current: None }
        } else {
            match item_of_line(line) {
                Some(item) => MealsReading {
                    complete: reading.complete,
                    current: Some(
                        MealView {
                            name: meal.name,
                            items: meal.items.push(item),
                            servings: meal.servings,
                        },
                    ),
                },
                None => reading,
            }
        },
    }
}

/// The reading after the lines `ls`.
pub open spec fn read_meal_lines(ls: Seq<Seq<char>>) -> MealsReading
    decreases ls.len(),
{
    if ls.len() == 0 {
        MealsReading { complete: Seq::empty(), current: None }
    } else {
        read_meal_line(read_meal_lines(ls.drop_last()), ls.last())
    }
}

/// The meals that a text stands for: the meal that is being read when the
/// text ends is complete too.
pub open spec fn decode_meals(text: Seq<char>) -> Seq<MealView> {
    let reading = read_meal_lines(lines(text));
    match reading.current {
        Some(meal) => reading.complete.push(meal),
        None => reading.complete,
    }
}

/// The line of an item.
pub open spec fn item_line(item: (Seq<char>, Amount)) -> Seq<char> {
    item.0 + seq![','] + millis_text(item.1.value())
}

/// Whether the lines of `meal` can be read back: its name holds no line
/// feed and ends in no carriage return, and the names of its products hold
/// no comma and no line feed.
pub open spec fn plain_meal(meal: MealView) -> bool {
    &&& free_of(meal.name, '\n')
    &&& strip_cr(meal.name) == meal.name
    &&& forall|k: int| 0 <= k < meal.items.len() ==> is_field((#[trigger] meal.items[k]).0)
}

/// The meals with the serving multiplier 1 in the place of their own.
pub open spec fn with_one_serving(meals: Seq<MealView>) -> Seq<MealView> {
    Seq::new(
        meals.len(),
        |i: int|
            MealView { name: meals[i].name, items: meals[i].items, servings: Amount { millis: 1000 } },
    )
}

/// The line of an item whose product's name can stand as a field is not
/// empty, holds no line feed, ends in no carriage return, and stands for the
/// item.
pub proof fn lemma_item_line(item: (Seq<char>, Amount))
    requires
        is_field(item.0),
    ensures
        item_line(item).len() > 0,
        free_of(item_line(item), '\n'),
        strip_cr(item_line(item)) == item_line(item),
        item_of_line(item_line(item)) == Some(item),
{
    let q = millis_text(item.1.value());
    lemma_amount_field(item.1, Amount { millis: 0 });
    lemma_split_cons(item.0, q, ',');
    lemma_split_single(q, ',');
    let line = item_line(item);
    assert(split(line, ',') =~= seq![item.0, q]);
    assert(line.last() == q.last());
}

/// Reading one more line, which holds no line feed, after a text that is
/// empty or ends in a line feed.
pub proof fn lemma_read_one_more(a: Seq<char>, l: Seq<char>)
    requires
        a.len() == 0 || a.last() == '\n',
        free_of(l, '\n'),
    ensures
        read_meal_lines(lines(a + l + seq!['\n'])) == read_meal_line(
            read_meal_lines(lines(a)),
            strip_cr(l),
        ),
{
    lemma_lines_push(a, l);
    assert(lines(a).push(strip_cr(l)).drop_last() =~= lines(a));
}

/// Reading the lines of items after a text at the end of which a meal is
/// being read adds the items to that meal.
pub proof fn lemma_read_items(a: Seq<char>, meal: MealView, items: Seq<(Seq<char>, Amount)>)
    requires
        a.len() > 0 && a.last() == '\n',
        read_meal_lines(lines(a)).current == Some(meal),
        forall|k: int| 0 <= k < items.len() ==> is_field((#[trigger] items[k]).0),
    ensures
        read_meal_lines(lines(a + encode_items(items))) == (MealsReading {
            complete: read_meal_lines(lines(a)).complete,
            current: Some(
                MealView { name: meal.name, items: meal.items + items, servings: meal.servings },
            ),
        }),
        (a + encode_items(items)).last() == '\n',
    decreases items.len(),
{
    if items.len() == 0 {
        assert(a + encode_items(items) =~= a);
        assert(meal.items + items =~= meal.items);
    } else {
        let front = items.drop_last();
        let item = items.last();
        assert forall|k: int| 0 <= k < front.len() implies is_field((#[trigger] front[k]).0) by {
            assert(front[k] == items[k]);
        }
        lemma_read_items(a, meal, front);
        assert(is_field(items[items.len() - 1].0));
        lemma_item_line(item);
        let before = a + encode_items(front);
        lemma_read_one_more(before, item_line(item));
        assert(a + encode_items(items) =~= before + item_line(item) + seq!['\n']);
        assert((meal.items + front).push(item) =~= meal.items + items);
    }
}

/// Reading the text of meals whose lines can be read back gives these meals
/// with one serving each, all complete.
pub proof fn lemma_read_meals(meals: Seq<MealView>)
    requires
        forall|i: int| 0 <= i < meals.len() ==> plain_meal(#[trigger] meals[i]),
    ensures
        read_meal_lines(lines(encode_meals(meals))) == (MealsReading {
            complete: with_one_serving(meals),
            current: None,
        }),
        encode_meals(meals).len() == 0 || encode_meals(meals).last() == '\n',
    decreases meals.len(),
{
    if meals.len() == 0 {
        assert(lines(encode_meals(meals)) =~= Seq::<Seq<char>>::empty());
        assert(with_one_serving(meals) =~= Seq::<MealView>::empty());
    } else {
        let front = meals.drop_last();
        let meal = meals.last();
        assert forall|i: int| 0 <= i < front.len() implies plain_meal(#[trigger] front[i]) by {
            assert(front[i] == meals[i]);
        }
        lemma_read_meals(front);
        assert(plain_meal(meals[meals.len() - 1]));
        let a0 = encode_meals(front);
        lemma_read_one_more(a0, meal.name);
        let a1 = a0 + meal.name + seq!['\n'];
        let started = MealView {
            name: meal.name,
            items: Seq::empty(),
            servings: Amount { millis: 1000 },
        };
        lemma_read_items(a1, started, meal.items);
        let a2 = a1 + encode_items(meal.items);
        let blank = Seq::<char>::empty();
        lemma_read_one_more(a2, blank);
        assert(encode_meals(meals) =~= a2 + blank + seq!['\n']);
        assert(started.items + meal.items =~= meal.items);
        assert(with_one_serving(front).push(
            MealView { name: meal.name, items: meal.items, servings: Amount { millis: 1000 } },
        ) =~= with_one_serving(meals));
    }
}

/// Writing meals and reading the text back gives the same meals, in their
/// order, with one serving each, where no name holds a line feed or ends in
/// a carriage return and no product's name holds a comma or a line feed.
pub proof fn lemma_meals_round_trip(meals: Seq<MealView>)
    requires
        forall|i: int| 0 <= i < meals.len() ==> plain_meal(#[trigger] meals[i]),
    ensures
        decode_meals(encode_meals(meals)) == with_one_serving(meals),
{
    lemma_read_meals(meals);
}

/// The text of the stored meals stands for the same meals with one serving
/// each, where their lines can be read back.
pub proof fn lemma_composer_round_trip(composer: Composer)
    requires
        forall|i: int| 0 <= i < composer@.len() ==> plain_meal(#[trigger] composer@[i]),
    ensures
        decode_meals(encode_meals(composer@)) == with_one_serving(composer@),
{
    lemma_meals_round_trip(composer@);
}

/// Appends the lines of `meal` to `out`.
fn encode_meal(out: &mut Vec<char>, meal: &Meal)
    ensures
        final(out)@ == old(out)@ + meal@.name + seq!['\n'] + encode_items(meal@.items) + seq!['\n'],
{
    push_str(out, meal.name());
    out.push('\n');
    let ghost head = out@;
    let mut k: usize = 0;
    assert(meal@.items.take(0) =~= Seq::empty());
    assert(head + encode_items(meal@.items.take(0)) =~= head);
    while k < meal.len()
        invariant
            k <= meal@.items.len(),
            head == old(out)@ + meal@.name + seq!['\n'],
            out@ == head + encode_items(meal@.items.take(k as int)),
        decreases meal@.items.len() - k,
    {
        let ghost before = out@;
        let item = meal.item(k);
        push_str(out, item.product.as_str());
        out.push(',');
        item.quantity.write(out);
        out.push('\n');
        proof {
            let items = meal@.items;
            assert(items.take(k + 1).drop_last() =~= items.take(k as int));
            assert(items.take(k + 1).last() == items[k as int]);
            assert(out@ =~= head + encode_items(items.take(k + 1)));
        }
        k += 1;
    }
    assert(meal@.items.take(k as int) =~= meal@.items);
    out.push('\n');
    assert(out@ =~= old(out)@ + meal@.name + seq!['\n'] + encode_items(meal@.items) + seq!['\n']);
}

/// The stored meals as text.
pub fn encode_composer(composer: &Composer) -> (text: String)
    ensures
        text@ == encode_meals(composer@),
{
    let mut out: Vec<char> = Vec::new();
    let mut i: usize = 0;
    assert(composer@.take(0) =~= Seq::empty());
    while i < composer.len()
        invariant
            i <= composer@.len(),
            out@ == encode_meals(composer@.take(i as int)),
        decreases composer@.len() - i,
    {
        let ghost before = out@;
        let meal = composer.meal(i);
        encode_meal(&mut out, meal);
        proof {
            let meals = composer@;
            assert(meals.take(i + 1).drop_last() =~= meals.take(i as int));
            assert(meals.take(i + 1).last() == meals[i as int]);
        }
        i += 1;
    }
    assert(composer@.take(i as int) =~= composer@);
    to_text(out.as_slice())
}

/// The meal that is being read, in the `Option` that holds its name and its
/// items, as a mathematical value.
pub open spec fn current_view(current: Option<(String, Vec<MealItem>)>) -> Option<MealView> {
    match current {
        Some((name, items)) => Some(
            MealView { name: name@, items: items_view(items@), servings: Amount { millis: 1000 } },
        ),
        None => None,
    }
}

/// The stored meals that `text` stands for.
pub fn decode_composer(text: &str) -> (composer: Composer)
    ensures
        composer@ == decode_meals(text@),
{
    let chars = to_chars(text);
    let ls = split_lines(chars.as_slice());
    let mut composer = Composer::new();
    let mut current: Option<(String, Vec<MealItem>)> = None;
    let mut i: usize = 0;
    assert(rows(ls@).take(0) =~= Seq::<Seq<char>>::empty());
    while i < ls.len()
        invariant
            i <= ls.len(),
            rows(ls@) == lines(text@),
            read_meal_lines(rows(ls@).take(i as int)) == (MealsReading {
                complete: composer@,
                current: current_view(current),
            }),
        decreases ls.len() - i,
    {
        proof {
            assert(rows(ls@).take(i + 1).drop_last() =~= rows(ls@).take(i as int));
            assert(rows(ls@).take(i + 1).last() == ls[i as int]@);
        }
        match current {
            None => {
                let items: Vec<MealItem> = Vec::new();
                assert(items_view(items@) =~= Seq::empty());
                current = Some((to_text(ls[i].as_slice()), items));
            },
            Some((name, mut items)) => {
                if ls[i].len() == 0 {
                    composer.add_meal(name.as_str(), items, Amount::one());
                    current = None;
                } else {
                    let fields = split_fields(ls[i].as_slice(), ',');
                    if fields.len() == 2 {
                        let product = to_text(fields[0].as_slice());
                        let quantity = read_amount_or(fields[1].as_slice(), Amount::zero());
                        let ghost before = items_view(items@);
                        proof {
                            let parts = split(ls[i as int]@, ',');
                            assert(parts[0] == fields[0]@ && parts[1] == fields[1]@);
                        }
                        items.push(MealItem::new(product.as_str(), quantity));
                        assert(items_view(items@) =~= before.push((product@, quantity)));
                    }
                    current = Some((name, items));
                }
            },
        }
        i += 1;
    }
    assert(rows(ls@).take(i as int) =~= rows(ls@));
    match current {
        Some((name, items)) => {
            composer.add_meal(name.as_str(), items, Amount::one());
        },
        None => {},
    }
    composer
}

} // verus!
