//! The product catalog: nutritional facts per unit, by product name.

use vstd::prelude::*;
use crate::amount::Amount;
use crate::assoc::{
    distinct_keys, has_key, lemma_index_of_key, lemma_to_map_at, lemma_to_map_keys,
    lemma_to_map_put, put, to_map,
};
use crate::text::same_text;

verus! {

/// The nutritional facts of a food, for one unit of its measure.
#[derive(Debug, PartialEq, Eq)]
pub struct Product {
    /// The measure that the values are given for, such as `g` or `cup`.
    pub unit: String,
    pub calories: Amount,
    pub proteins: Amount,
    pub minerals: Amount,
}

/// A product as a mathematical value.
pub struct ProductView {
    pub unit: Seq<char>,
    pub calories: Amount,
    pub proteins: Amount,
    pub minerals: Amount,
}

impl View for Product {
    type V = ProductView;

    open spec fn view(&self) -> ProductView {
        ProductView {
            unit: self.unit@,
            calories: self.calories,
            proteins: self.proteins,
            minerals: self.minerals,
        }
    }
}

impl Clone for Product {
    fn clone(&self) -> (copy: Self)
        ensures
            copy@ == self@,
    {
        Product {
            unit: self.unit.clone(),
            calories: self.calories,
            proteins: self.proteins,
            minerals: self.minerals,
        }
    }
}

/// A product under its name.
struct CatalogEntry {
    name: String,
    product: Product,
}

/// The products known, each under its own name.
pub struct Catalog {
    entries: Vec<CatalogEntry>,
}

impl Catalog {
    /// The products with their names, in the order in which the names were
    /// first added.
    pub closed spec fn entries(&self) -> Seq<(Seq<char>, ProductView)> {
        Seq::new(self.entries@.len(), |i: int| (self.entries@[i].name@, self.entries@[i].product@))
    }

    /// No name stands for two products.
    pub open spec fn wf(&self) -> bool {
        distinct_keys(self.entries())
    }

    /// The product of each name.
    pub open spec fn view(&self) -> Map<Seq<char>, ProductView> {
        to_map(self.entries())
    }

    /// A catalog without products.
    pub fn new() -> (catalog: Catalog)
        ensures
            catalog.wf(),
            catalog.entries() == Seq::<(Seq<char>, ProductView)>::empty(),
            catalog@ == Map::<Seq<char>, ProductView>::empty(),
    {
        let catalog = Catalog { entries: Vec::new() };
        assert(catalog.entries() =~= Seq::empty());
        catalog
    }

    /// The number of products.
    pub fn len(&self) -> (n: usize)
        ensures
            n == self.entries().len(),
    {
        self.entries.len()
    }

    /// The place of the product named `name`.
    fn position(&self, name: &str) -> (at: Option<usize>)
        ensures
            match at {
                Some(i) => i < self.entries().len() && self.entries()[i as int].0 == name@,
                None => !has_key(self.entries(), name@),
            },
    {
        let mut i: usize = 0;
        while i < self.entries.len()
            invariant
                i <= self.entries.len(),
                forall|j: int| 0 <= j < i ==> (#[trigger] self.entries()[j]).0 != name@,
            decreases self.entries.len() - i,
        {
            if same_text(self.entries[i].name.as_str(), name) {
                return Some(i);
            }
            i += 1;
        }
        None
    }

    /// Whether a product is named `name`.
    pub fn contains(&self, name: &str) -> (found: bool)
        ensures
            found == self@.contains_key(name@),
    {
        proof {
            lemma_to_map_keys(self.entries(), name@);
        }
        self.position(name).is_some()
    }

    /// The product named `name`, if there is one.
    pub fn lookup(&self, name: &str) -> (found: Option<&Product>)
        requires
            self.wf(),
        ensures
            match found {
                Some(product) => self@.contains_key(name@) && product@ == self@[name@],
                None => !self@.contains_key(name@),
            },
    {
        proof {
            lemma_to_map_keys(self.entries(), name@);
        }
        match self.position(name) {
            Some(i) => {
                proof {
                    lemma_to_map_at(self.entries(), i as int);
                }
                Some(&self.entries[i].product)
            },
            None => None,
        }
    }

    /// The name and the product at place `i` of `entries()`.
    pub fn entry(&self, i: usize) -> (pair: (&str, &Product))
        requires
            i < self.entries().len(),
        ensures
            (pair.0@, pair.1@) == self.entries()[i as int],
    {
        (self.entries[i].name.as_str(), &self.entries[i].product)
    }

    /// Puts a product under `name`, in the place of the one that had the
    /// name, if any.
    pub fn add_product(
        &mut self,
        name: &str,
        unit: &str,
        calories: Amount,
        proteins: Amount,
        minerals: Amount,
    )
        requires
            old(self).wf(),
        ensures
            final(self).wf(),
            final(self).entries() == put(
                old(self).entries(),
                name@,
                ProductView { unit: unit@, calories, proteins, minerals },
            ),
            final(self)@ == old(self)@.insert(
                name@,
                ProductView { unit: unit@, calories, proteins, minerals },
            ),
    {
        let product = Product { unit: unit.to_owned(), calories, proteins, minerals };
        let ghost facts = product@;
        proof {
            lemma_to_map_put(self.entries(), name@, facts);
        }
        match self.position(name) {
            Some(i) => {
                proof {
                    lemma_index_of_key(self.entries(), i as int);
                }
                let entry = CatalogEntry { name: name.to_owned(), product };
                self.entries.set(i, entry);
                assert(self.entries() =~= old(self).entries().update(i as int, (name@, facts)));
            },
            None => {
                let entry = CatalogEntry { name: name.to_owned(), product };
                self.entries.push(entry);
                assert(self.entries() =~= old(self).entries().push((name@, facts)));
            },
        }
    }
}

} // verus!
