//! What the records of all collections share: numbers with a fallback.

use vstd::prelude::*;
use crate::amount::{
    lemma_millis_text_chars, lemma_parse_millis_text, millis_text, parse_millis, Amount,
};
use crate::decimal::is_digit;
use crate::text::is_field;

verus! {

/// The amount that `text` denotes, or `fallback` where it denotes none.
pub open spec fn amount_or(text: Seq<char>, fallback: Amount) -> Amount {
    match parse_millis(text) {
        Some(v) => Amount { millis: v as i32 },
        None => fallback,
    }
}

/// Reads an amount from `s`, with `fallback` for a text that denotes none.
pub fn read_amount_or(s: &[char], fallback: Amount) -> (a: Amount)
    ensures
        a == amount_or(s@, fallback),
{
    match Amount::read(s) {
        Some(a) => a,
        None => fallback,
    }
}

/// The text of an amount can stand as a field, also as the last of a line,
/// and is read back as that amount.
pub proof fn lemma_amount_field(a: Amount, fallback: Amount)
    ensures
        is_field(millis_text(a.value())),
        millis_text(a.value()).len() > 0,
        millis_text(a.value()).last() != '\r',
        amount_or(millis_text(a.value()), fallback) == a,
{
    lemma_millis_text_chars(a.value());
    lemma_parse_millis_text(a.value());
    let t = millis_text(a.value());
    assert forall|i: int| 0 <= i < t.len() implies #[trigger] t[i] != ',' && t[i] != '\n' && t[i]
        != '\r' by {
        assert(is_digit(t[i]) || t[i] == '-' || t[i] == '.');
    }
    assert(t.last() == t[t.len() - 1]);
}

} // verus!
