//! The registered users as text: one line for each user, of the form
//! `name,age,sex,height,weight`.

use vstd::prelude::*;
use crate::amount::{millis_text, Amount};
use crate::assoc::{lemma_put_pairs, to_map};
use crate::decimal::{
    is_digit, lemma_nat_text, lemma_parse_nat_text, nat_text, parse_nat, push_nat, read_nat,
};
use crate::records::{amount_or, lemma_amount_field, read_amount_or};
use crate::text::{
    free_of, is_field, lemma_fields_of_line, lemma_lines_push, lemma_split_cons,
    lemma_split_single, lines, push_str, rows, split, split_fields, split_lines, strip_cr,
    to_chars, to_text,
};
use crate::users::{User, UserRegistry, UserView};

verus! {

/// The age that `text` denotes, or 0 where it denotes none: an age is an
/// unsigned decimal number that fits 32 bits.
pub open spec fn age_or_zero(text: Seq<char>) -> u32 {
    match parse_nat(text, u32::MAX as nat) {
        Some(n) => n as u32,
        None => 0,
    }
}

/// Reads an age from `s`, with 0 for a text that denotes none.
pub fn read_age(s: &[char]) -> (age: u32)
    ensures
        age == age_or_zero(s@),
{
    match read_nat(s, 0xffff_ffff) {
        Some(n) => n as u32,
        None => 0,
    }
}

/// Reads an age from `text`, with 0 for a text that denotes none.
pub fn parse_age(text: &str) -> (age: u32)
    ensures
        age == age_or_zero(text@),
{
    let chars = to_chars(text);
    read_age(chars.as_slice())
}

/// The line of a user.
pub open spec fn user_line(user: UserView) -> Seq<char> {
    user.name + seq![','] + nat_text(user.age as nat) + seq![','] + user.sex + seq![',']
        + millis_text(user.height.value()) + seq![','] + millis_text(user.weight.value())
}

/// The text of the users: the line of each, in order, each with a line feed
/// after it.
pub open spec fn encode_users(entries: Seq<(Seq<char>, UserView)>) -> Seq<char>
    decreases entries.len(),
{
    if entries.len() == 0 {
        Seq::empty()
    } else {
        encode_users(entries.drop_last()) + user_line(entries.last().1) + seq!['\n']
    }
}

/// The user that a line stands for: a line of five fields gives a user, with
/// 0 for an age, a height or a weight that is not a number; any other line
/// gives none.
pub open spec fn user_of_line(line: Seq<char>) -> Option<UserView> {
    let fields = split(line, ',');
    if fields.len() == 5 {
        Some(
            UserView {
                name: fields[0],
                age: age_or_zero(fields[1]),
                sex: fields[2],
                height: amount_or(fields[3], Amount { millis: 0 }),
                weight: amount_or(fields[4], Amount { millis: 0 }),
            },
        )
    } else {
        None
    }
}

/// The users that the lines stand for, each under its name, in the order of
/// the lines.
pub open spec fn users_of_lines(ls: Seq<Seq<char>>) -> Seq<(Seq<char>, UserView)>
    decreases ls.len(),
{
    if ls.len() == 0 {
        Seq::empty()
    } else {
        match user_of_line(ls.last()) {
            Some(user) => users_of_lines(ls.drop_last()).push((user.name, user)),
            None => users_of_lines(ls.drop_last()),
        }
    }
}

/// The registry that a text stands for: the users of its lines, a later line
/// replacing an earlier one of the same name.
pub open spec fn decode_users(text: Seq<char>) -> Map<Seq<char>, UserView> {
    to_map(users_of_lines(lines(text)))
}

/// Whether the name and the sex of each user hold no comma and no line
/// feed.
pub open spec fn plain_users(entries: Seq<(Seq<char>, UserView)>) -> bool {
    forall|i: int|
        0 <= i < entries.len() ==> is_field((#[trigger] entries[i]).1.name) && is_field(
            entries[i].1.sex,
        )
}

/// The line of a user whose name and sex can stand as fields holds no line
/// feed, ends in no carriage return, and stands for the user.
pub proof fn lemma_user_line(user: UserView)
    requires
        is_field(user.name),
        is_field(user.sex),
    ensures
        free_of(user_line(user), '\n'),
        strip_cr(user_line(user)) == user_line(user),
        user_of_line(user_line(user)) == Some(user),
{
    let zero = Amount { millis: 0 };
    let a = nat_text(user.age as nat);
    let h = millis_text(user.height.value());
    let w = millis_text(user.weight.value());
    lemma_nat_text(user.age as nat);
    lemma_parse_nat_text(user.age as nat, u32::MAX as nat);
    lemma_amount_field(user.height, zero);
    lemma_amount_field(user.weight, zero);
    assert forall|i: int| 0 <= i < a.len() implies #[trigger] a[i] != ',' && a[i] != '\n' by {
        assert(is_digit(a[i]));
    }
    let line = user_line(user);
    let r3 = h + seq![','] + w;
    let r2 = user.sex + seq![','] + r3;
    let r1 = a + seq![','] + r2;
    assert(line =~= user.name + seq![','] + r1);
    lemma_split_cons(user.name, r1, ',');
    lemma_split_cons(a, r2, ',');
    lemma_split_cons(user.sex, r3, ',');
    lemma_split_cons(h, w, ',');
    lemma_split_single(w, ',');
    let fields = split(line, ',');
    assert(fields =~= seq![user.name, a, user.sex, h, w]);
    assert(line.last() == w.last());
}

/// The lines of the text of users, each under its own name, whose names and
/// sexes can stand as fields, stand for these users, in their order.
pub proof fn lemma_users_of_text(entries: Seq<(Seq<char>, UserView)>)
    requires
        forall|i: int|
            0 <= i < entries.len() ==> (#[trigger] entries[i]).0 == entries[i].1.name && is_field(
                entries[i].1.name,
            ) && is_field(entries[i].1.sex),
    ensures
        users_of_lines(lines(encode_users(entries))) == entries,
    decreases entries.len(),
{
    if entries.len() == 0 {
        assert(lines(encode_users(entries)) =~= Seq::<Seq<char>>::empty());
    } else {
        let front = entries.drop_last();
        let last = entries.last();
        assert forall|i: int| 0 <= i < front.len() implies (#[trigger] front[i]).0
            == front[i].1.name && is_field(front[i].1.name) && is_field(front[i].1.sex) by {
            assert(front[i] == entries[i]);
        }
        lemma_users_of_text(front);
        let line = user_line(last.1);
        assert(entries[entries.len() - 1].0 == last.1.name);
        lemma_user_line(last.1);
        lemma_lines_push(encode_users(front), line);
        let ls = lines(encode_users(entries));
        assert(ls.drop_last() =~= lines(encode_users(front)));
        assert(ls.last() == line);
        assert(users_of_lines(ls) =~= entries);
    }
}

/// Writing users and reading the text back gives the same users, whatever
/// their order, where each stands under its own name and no name and no sex
/// holds a comma or a line feed.
pub proof fn lemma_users_round_trip(entries: Seq<(Seq<char>, UserView)>)
    requires
        forall|i: int|
            0 <= i < entries.len() ==> (#[trigger] entries[i]).0 == entries[i].1.name && is_field(
                entries[i].1.name,
            ) && is_field(entries[i].1.sex),
    ensures
        decode_users(encode_users(entries)) == to_map(entries),
{
    lemma_users_of_text(entries);
}

/// The text of a registry stands for the same registry, where no name and no
/// sex holds a comma or a line feed.
pub proof fn lemma_registry_round_trip(registry: UserRegistry)
    requires
        plain_users(registry.entries()),
    ensures
        decode_users(encode_users(registry.entries())) == registry@,
{
    registry.lemma_entry_names();
    lemma_users_round_trip(registry.entries());
}

/// The registry as text.
pub fn encode_registry(registry: &UserRegistry) -> (text: String)
    ensures
        text@ == encode_users(registry.entries()),
{
    let mut out: Vec<char> = Vec::new();
    let mut i: usize = 0;
    assert(registry.entries().take(0) =~= Seq::empty());
    while i < registry.len()
        invariant
            i <= registry.entries().len(),
            out@ == encode_users(registry.entries().take(i as int)),
        decreases registry.entries().len() - i,
    {
        let ghost before = out@;
        let user = registry.user(i);
        push_str(&mut out, user.name.as_str());
        out.push(',');
        push_nat(&mut out, user.age as u64);
        out.push(',');
        push_str(&mut out, user.sex.as_str());
        out.push(',');
        user.height.write(&mut out);
        out.push(',');
        user.weight.write(&mut out);
        out.push('\n');
        proof {
            let entries = registry.entries();
            assert(entries.take(i + 1).drop_last() =~= entries.take(i as int));
            assert(entries.take(i + 1).last() == entries[i as int]);
            assert(out@ =~= before + user_line(user@) + seq!['\n']);
        }
        i += 1;
    }
    assert(registry.entries().take(i as int) =~= registry.entries());
    to_text(out.as_slice())
}

/// The registry that `text` stands for. The names and sexes that it holds
/// can be written and read back.
pub fn decode_registry(text: &str) -> (registry: UserRegistry)
    ensures
        registry.wf(),
        registry@ == decode_users(text@),
        plain_users(registry.entries()),
{
    let chars = to_chars(text);
    let ls = split_lines(chars.as_slice());
    let mut registry = UserRegistry::new();
    let mut i: usize = 0;
    assert(rows(ls@).take(0) =~= Seq::<Seq<char>>::empty());
    while i < ls.len()
        invariant
            i <= ls.len(),
            rows(ls@) == lines(text@),
            registry.wf(),
            plain_users(registry.entries()),
            registry@ == to_map(users_of_lines(rows(ls@).take(i as int))),
        decreases ls.len() - i,
    {
        let fields = split_fields(ls[i].as_slice(), ',');
        proof {
            assert(rows(ls@).take(i + 1).drop_last() =~= rows(ls@).take(i as int));
            assert(rows(ls@).take(i + 1).last() == ls[i as int]@);
        }
        if fields.len() == 5 {
            let name = to_text(fields[0].as_slice());
            let age: u32 = read_age(fields[1].as_slice());
            let sex = to_text(fields[2].as_slice());
            let height = read_amount_or(fields[3].as_slice(), Amount::zero());
            let weight = read_amount_or(fields[4].as_slice(), Amount::zero());
            proof {
                let parts = split(ls[i as int]@, ',');
                assert(parts[0] == fields[0]@ && parts[1] == fields[1]@ && parts[2] == fields[2]@
                    && parts[3] == fields[3]@ && parts[4] == fields[4]@);
                let front = users_of_lines(rows(ls@).take(i as int));
                let user = user_of_line(ls[i as int]@).unwrap();
                assert(front.push((user.name, user)).drop_last() =~= front);
            }
            let ghost before = registry.entries();
            let user = User::new(name.as_str(), age, sex.as_str(), height, weight);
            let ghost facts = user@;
            registry.register(user);
            proof {
                assert(rows(ls@)[i as int] == ls[i as int]@);
                lemma_fields_of_line(text@, i as int);
                let after = registry.entries();
                assert forall|e: int| 0 <= e < after.len() implies is_field(
                    (#[trigger] after[e]).1.name,
                ) && is_field(after[e].1.sex) by {
                    lemma_put_pairs(before, facts.name, facts, e);
                    if after[e] != (facts.name, facts) {
                        assert(is_field(before[e].1.name));
                    }
                }
            }
        }
        i += 1;
    }
    assert(rows(ls@).take(i as int) =~= rows(ls@));
    registry
}

} // verus!
