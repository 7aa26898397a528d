//! The catalog as text: one line for each product, of the form
//! `name,unit,calories,proteins,minerals`.

use vstd::prelude::*;
use crate::amount::{millis_text, Amount};
use crate::assoc::{lemma_put_pairs, to_map};
use crate::catalog::{Catalog, ProductView};
use crate::records::{amount_or, lemma_amount_field, read_amount_or};
use crate::text::{
    free_of, is_field, lemma_fields_of_line, lemma_lines_push, lemma_split_cons,
    lemma_split_single, lines, push_str, rows, split, split_fields, split_lines, strip_cr,
    to_chars, to_text,
};

verus! {

/// The line of a product.
pub open spec fn product_line(name: Seq<char>, product: ProductView) -> Seq<char> {
    name + seq![','] + product.unit + seq![','] + millis_text(product.calories.value()) + seq![',']
        + millis_text(product.proteins.value()) + seq![','] + millis_text(product.minerals.value())
}

/// The text of the products: the line of each, in order, each with a line
/// feed after it.
pub open spec fn encode_products(entries: Seq<(Seq<char>, ProductView)>) -> Seq<char>
    decreases entries.len(),
{
    if entries.len() == 0 {
        Seq::empty()
    } else {
        encode_products(entries.drop_last()) + product_line(entries.last().0, entries.last().1)
            + seq!['\n']
    }
}

/// The product that a line stands for: a line of five fields gives a
/// product, with 0 for a value that is not a number; any other line gives
/// none.
pub open spec fn product_of_line(line: Seq<char>) -> Option<(Seq<char>, ProductView)> {
    let fields = split(line, ',');
    if fields.len() == 5 {
        Some(
            (
                fields[0],
                ProductView {
                    unit: fields[1],
                    calories: amount_or(fields[2], Amount { millis: 0 }),
                    proteins: amount_or(fields[3], Amount { millis: 0 }),
                    minerals: amount_or(fields[4], Amount { millis: 0 }),
                },
            ),
        )
    } else {
        None
    }
}

/// The products that the lines stand for, in the order of the lines.
pub open spec fn products_of_lines(ls: Seq<Seq<char>>) -> Seq<(Seq<char>, ProductView)>
    decreases ls.len(),
{
    if ls.len() == 0 {
        Seq::empty()
    } else {
        match product_of_line(ls.last()) {
            Some(entry) => products_of_lines(ls.drop_last()).push(entry),
            None => products_of_lines(ls.drop_last()),
        }
    }
}

/// The catalog that a text stands for: the products of its lines, a later
/// line replacing an earlier one of the same name.
pub open spec fn decode_products(text: Seq<char>) -> Map<Seq<char>, ProductView> {
    to_map(products_of_lines(lines(text)))
}

/// Whether the name and the unit of each product hold no comma and no line
/// feed.
pub open spec fn plain_products(entries: Seq<(Seq<char>, ProductView)>) -> bool {
    forall|i: int|
        0 <= i < entries.len() ==> is_field((#[trigger] entries[i]).0) && is_field(entries[i].1.unit)
}

/// The line of a product whose name and unit can stand as fields holds no
/// line feed, ends in no carriage return, and stands for the product.
pub proof fn lemma_product_line(name: Seq<char>, product: ProductView)
    requires
        is_field(name),
        is_field(product.unit),
    ensures
        free_of(product_line(name, product), '\n'),
        strip_cr(product_line(name, product)) == product_line(name, product),
        product_of_line(product_line(name, product)) == Some((name, product)),
{
    let zero = Amount { millis: 0 };
    let c = millis_text(product.calories.value());
    let p = millis_text(product.proteins.value());
    let m = millis_text(product.minerals.value());
    lemma_amount_field(product.calories, zero);
    lemma_amount_field(product.proteins, zero);
    lemma_amount_field(product.minerals, zero);
    let line = product_line(name, product);
    let r3 = p + seq![','] + m;
    let r2 = c + seq![','] + r3;
    let r1 = product.unit + seq![','] + r2;
    assert(line =~= name + seq![','] + r1);
    lemma_split_cons(name, r1, ',');
    lemma_split_cons(product.unit, r2, ',');
    lemma_split_cons(c, r3, ',');
    lemma_split_cons(p, m, ',');
    lemma_split_single(m, ',');
    let fields = split(line, ',');
    assert(fields =~= seq![name, product.unit, c, p, m]);
    assert(line.last() == m.last());
}

/// The text of products ends in a line feed unless it is empty.
pub proof fn lemma_encode_products_end(entries: Seq<(Seq<char>, ProductView)>)
    ensures
        encode_products(entries).len() == 0 || encode_products(entries).last() == '\n',
{
}

/// The lines of the text of products whose names and units can stand as
/// fields stand for these products, in their order.
pub proof fn lemma_products_of_text(entries: Seq<(Seq<char>, ProductView)>)
    requires
        forall|i: int|
            0 <= i < entries.len() ==> is_field((#[trigger] entries[i]).0) && is_field(
                entries[i].1.unit,
            ),
    ensures
        products_of_lines(lines(encode_products(entries))) == entries,
    decreases entries.len(),
{
    if entries.len() == 0 {
        assert(lines(encode_products(entries)) =~= Seq::<Seq<char>>::empty());
    } else {
        let front = entries.drop_last();
        let last = entries.last();
        assert forall|i: int| 0 <= i < front.len() implies is_field((#[trigger] front[i]).0)
            && is_field(front[i].1.unit) by {
            assert(front[i] == entries[i]);
        }
        lemma_products_of_text(front);
        lemma_encode_products_end(front);
        let line = product_line(last.0, last.1);
        assert(is_field(entries[entries.len() - 1].0));
        lemma_product_line(last.0, last.1);
        lemma_lines_push(encode_products(front), line);
        let ls = lines(encode_products(entries));
        assert(ls.drop_last() =~= lines(encode_products(front)));
        assert(ls.last() == line);
        assert(products_of_lines(ls) =~= entries);
    }
}

/// Writing products and reading the text back gives the same products,
/// whatever their order, where no name and no unit holds a comma or a line
/// feed.
pub proof fn lemma_products_round_trip(entries: Seq<(Seq<char>, ProductView)>)
    requires
        forall|i: int|
            0 <= i < entries.len() ==> is_field((#[trigger] entries[i]).0) && is_field(
                entries[i].1.unit,
            ),
    ensures
        decode_products(encode_products(entries)) == to_map(entries),
{
    lemma_products_of_text(entries);
}

/// The text of a catalog stands for the same catalog, where no name and no
/// unit holds a comma or a line feed.
pub proof fn lemma_catalog_round_trip(catalog: Catalog)
    requires
        plain_products(catalog.entries()),
    ensures
        decode_products(encode_products(catalog.entries())) == catalog@,
{
    lemma_products_round_trip(catalog.entries());
}

/// The catalog as text.
pub fn encode_catalog(catalog: &Catalog) -> (text: String)
    ensures
        text@ == encode_products(catalog.entries()),
{
    let mut out: Vec<char> = Vec::new();
    let mut i: usize = 0;
    assert(catalog.entries().take(0) =~= Seq::empty());
    while i < catalog.len()
        invariant
            i <= catalog.entries().len(),
            out@ == encode_products(catalog.entries().take(i as int)),
        decreases catalog.entries().len() - i,
    {
        let ghost before = out@;
        let (name, product) = catalog.entry(i);
        push_str(&mut out, name);
        out.push(',');
        push_str(&mut out, product.unit.as_str());
        out.push(',');
        product.calories.write(&mut out);
        out.push(',');
        product.proteins.write(&mut out);
        out.push(',');
        product.minerals.write(&mut out);
        out.push('\n');
        proof {
            let entries = catalog.entries();
            assert(entries.take(i + 1).drop_last() =~= entries.take(i as int));
            assert(entries.take(i + 1).last() == entries[i as int]);
            assert(out@ =~= before + product_line(name@, product@) + seq!['\n']);
        }
        i += 1;
    }
    assert(catalog.entries().take(i as int) =~= catalog.entries());
    to_text(out.as_slice())
}

/// The catalog that `text` stands for. The names and units that it holds can
/// be written and read back.
pub fn decode_catalog(text: &str) -> (catalog: Catalog)
    ensures
        catalog.wf(),
        catalog@ == decode_products(text@),
        plain_products(catalog.entries()),
{
    let chars = to_chars(text);
    let ls = split_lines(chars.as_slice());
    let mut catalog = Catalog::new();
    let mut i: usize = 0;
    assert(rows(ls@).take(0) =~= Seq::<Seq<char>>::empty());
    while i < ls.len()
        invariant
            i <= ls.len(),
            rows(ls@) == lines(text@),
            catalog.wf(),
            plain_products(catalog.entries()),
            catalog@ == to_map(products_of_lines(rows(ls@).take(i as int))),
        decreases ls.len() - i,
    {
        let fields = split_fields(ls[i].as_slice(), ',');
        proof {
            assert(rows(ls@).take(i + 1).drop_last() =~= rows(ls@).take(i as int));
            assert(rows(ls@).take(i + 1).last() == ls[i as int]@);
        }
        if fields.len() == 5 {
            let name = to_text(fields[0].as_slice());
            let unit = to_text(fields[1].as_slice());
            let calories = read_amount_or(fields[2].as_slice(), Amount::zero());
            let proteins = read_amount_or(fields[3].as_slice(), Amount::zero());
            let minerals = read_amount_or(fields[4].as_slice(), Amount::zero());
            proof {
                let parts = split(ls[i as int]@, ',');
                assert(parts[0] == fields[0]@ && parts[1] == fields[1]@ && parts[2] == fields[2]@
                    && parts[3] == fields[3]@ && parts[4] == fields[4]@);
                let front = products_of_lines(rows(ls@).take(i as int));
                let entry = product_of_line(ls[i as int]@).unwrap();
                assert(front.push(entry).drop_last() =~= front);
            }
            let ghost before = catalog.entries();
            catalog.add_product(name.as_str(), unit.as_str(), calories, proteins, minerals);
            proof {
                let facts = ProductView { unit: unit@, calories, proteins, minerals };
                assert(rows(ls@)[i as int] == ls[i as int]@);
                lemma_fields_of_line(text@, i as int);
                let after = catalog.entries();
                assert forall|e: int| 0 <= e < after.len() implies is_field((#[trigger] after[e]).0)
                    && is_field(after[e].1.unit) by {
                    lemma_put_pairs(before, name@, facts, e);
                    if after[e] != (name@, facts) {
                        assert(is_field(before[e].0));
                    }
                }
            }
        }
        i += 1;
    }
    assert(rows(ls@).take(i as int) =~= rows(ls@));
    catalog
}

} // verus!
