//! The decisions taken while a meal is put together and chosen for
//! logging.

use vstd::prelude::*;
use crate::amount::Amount;
use crate::catalog::{Catalog, ProductView};
use crate::decimal::{parse_nat, read_nat};
use crate::meal::{items_view, normal_servings, Meal, MealItem, MealView};
use crate::text::{same_text, to_chars};

verus! {

/// What a line means that was entered where a product's name is expected.
#[derive(Clone, Copy, Debug, PartialEq, Eq)]
pub enum Entry {
    /// The word that ends the list of items.
    Done,
    /// No product has this name.
    Unknown,
    /// The name of a product.
    Known,
}

/// The word that ends the list of items.
pub open spec fn done_word() -> Seq<char> {
    seq!['d', 'o', 'n', 'e']
}

/// What `line` means where a product's name is expected.
pub open spec fn entry_of(catalog: Map<Seq<char>, ProductView>, line: Seq<char>) -> Entry {
    if line == done_word() {
        Entry::Done
    } else if catalog.contains_key(line) {
        Entry::Known
    } else {
        Entry::Unknown
    }
}

/// Tells what `line` means where a product's name is expected: the word
/// `done` ends the list, also where a product has that name.
pub fn classify_entry(catalog: &Catalog, line: &str) -> (entry: Entry)
    ensures
        entry == entry_of(catalog@, line@),
{
    proof {
        reveal_strlit("done");
        assert("done"@ =~= done_word());
    }
    if same_text(line, "done") {
        Entry::Done
    } else if catalog.contains(line) {
        Entry::Known
    } else {
        Entry::Unknown
    }
}

/// A meal that is being put together.
pub struct MealDraft {
    name: String,
    items: Vec<MealItem>,
}

impl MealDraft {
    /// The name that the meal will have.
    pub closed spec fn name(&self) -> Seq<char> {
        self.name@
    }

    /// The items taken so far.
    pub closed spec fn items(&self) -> Seq<(Seq<char>, Amount)> {
        items_view(self.items@)
    }

    /// A draft named `name`, without items.
    pub fn new(name: &str) -> (draft: MealDraft)
        ensures
            draft.name() == name@,
            draft.items() == Seq::<(Seq<char>, Amount)>::empty(),
    {
        let draft = MealDraft { name: name.to_owned(), items: Vec::new() };
        assert(draft.items() =~= Seq::empty());
        draft
    }

    /// Takes `quantity` units of the product named `product` as the next
    /// item, if `catalog` has a product of that name; else the draft stays
    /// as it is.
    pub fn add_item(&mut self, catalog: &Catalog, product: &str, quantity: Amount) -> (taken: bool)
        ensures
            taken == catalog@.contains_key(product@),
            final(self).name() == old(self).name(),
            final(self).items() == if taken {
                old(self).items().push((product@, quantity))
            } else {
                old(self).items()
            },
    {
        if catalog.contains(product) {
            self.items.push(MealItem::new(product, quantity));
            assert(self.items() =~= old(self).items().push((product@, quantity)));
            true
        } else {
            false
        }
    }

    /// The meal of the draft's name and items, with the multiplier
    /// `servings`, or 1 where `servings` is not positive.
    pub fn finish(self, servings: Amount) -> (meal: Meal)
        ensures
            meal@ == (MealView {
                name: self.name(),
                items: self.items(),
                servings: normal_servings(servings),
            }),
    {
        Meal::new(self.name.as_str(), self.items, servings)
    }
}

/// What a line means that was entered to choose the meal to log.
#[derive(Clone, Copy, Debug, PartialEq, Eq)]
pub enum Selection {
    /// A meal made for this one log.
    Custom,
    /// The stored meal at this place, counted from 0.
    Stored(usize),
    /// A number that is not the number of a stored meal.
    OutOfRange,
    /// Not a number.
    Unreadable,
}

/// What `choice` means where one of `stored` meals is chosen by its number,
/// counted from 1, or a custom meal by `0`.
pub open spec fn selection_of(choice: Seq<char>, stored: nat) -> Selection {
    if choice == seq!['0'] {
        Selection::Custom
    } else {
        match parse_nat(choice, usize::MAX as nat) {
            Some(n) => if 1 <= n <= stored {
                Selection::Stored((n - 1) as usize)
            } else {
                Selection::OutOfRange
            },
            None => Selection::Unreadable,
        }
    }
}

/// Tells what `choice` means where one of `stored` meals is chosen.
pub fn select_meal(choice: &str, stored: usize) -> (selection: Selection)
    ensures
        selection == selection_of(choice@, stored as nat),
{
    proof {
        reveal_strlit("0");
        assert("0"@ =~= seq!['0']);
    }
    if same_text(choice, "0") {
        return Selection::Custom;
    }
    let chars = to_chars(choice);
    match read_nat(chars.as_slice(), usize::MAX as u64) {
        Some(n) => {
            if 1 <= n && n <= stored as u64 {
                Selection::Stored((n - 1) as usize)
            } else {
                Selection::OutOfRange
            }
        },
        None => Selection::Unreadable,
    }
}

} // verus!
