//! The registered users, each under a unique name.

use vstd::prelude::*;
use crate::amount::Amount;
use crate::assoc::{
    distinct_keys, has_key, lemma_index_of_key, lemma_to_map_at, lemma_to_map_keys,
    lemma_to_map_put, put, to_map,
};
use crate::text::same_text;

verus! {

/// A registered user.
#[derive(Debug, PartialEq, Eq)]
pub struct User {
    pub name: String,
    pub age: u32,
    pub sex: String,
    /// Height in centimetres.
    pub height: Amount,
    /// Weight in kilograms.
    pub weight: Amount,
}

/// A user as a mathematical value.
pub struct UserView {
    pub name: Seq<char>,
    pub age: u32,
    pub sex: Seq<char>,
    pub height: Amount,
    pub weight: Amount,
}

impl View for User {
    type V = UserView;

    open spec fn view(&self) -> UserView {
        UserView {
            name: self.name@,
            age: self.age,
            sex: self.sex@,
            height: self.height,
            weight: self.weight,
        }
    }
}

impl Clone for User {
    fn clone(&self) -> (copy: Self)
        ensures
            copy@ == self@,
    {
        User {
            name: self.name.clone(),
            age: self.age,
            sex: self.sex.clone(),
            height: self.height,
            weight: self.weight,
        }
    }
}

impl User {
    /// The user of the given name, age, sex, height and weight.
    pub fn new(name: &str, age: u32, sex: &str, height: Amount, weight: Amount) -> (user: User)
        ensures
            user@ == (UserView { name: name@, age, sex: sex@, height, weight }),
    {
        User { name: name.to_owned(), age, sex: sex.to_owned(), height, weight }
    }
}

/// The registered users.
pub struct UserRegistry {
    users: Vec<User>,
}

impl UserRegistry {
    /// The users under their names, in the order in which the names were
    /// first registered.
    pub closed spec fn entries(&self) -> Seq<(Seq<char>, UserView)> {
        Seq::new(self.users@.len(), |i: int| (self.users@[i].name@, self.users@[i]@))
    }

    /// No name stands for two users.
    pub open spec fn wf(&self) -> bool {
        distinct_keys(self.entries())
    }

    /// The user of each name.
    pub open spec fn view(&self) -> Map<Seq<char>, UserView> {
        to_map(self.entries())
    }

    /// Each user stands under its own name.
    pub proof fn lemma_entry_names(&self)
        ensures
            forall|i: int|
                0 <= i < self.entries().len() ==> (#[trigger] self.entries()[i]).0
                    == self.entries()[i].1.name,
    {
    }

    /// A registry without users.
    pub fn new() -> (registry: UserRegistry)
        ensures
            registry.wf(),
            registry.entries() == Seq::<(Seq<char>, UserView)>::empty(),
            registry@ == Map::<Seq<char>, UserView>::empty(),
    {
        let registry = UserRegistry { users: Vec::new() };
        assert(registry.entries() =~= Seq::empty());
        registry
    }

    /// The number of users.
    pub fn len(&self) -> (n: usize)
        ensures
            n == self.entries().len(),
    {
        self.users.len()
    }

    /// The user at place `i` of `entries()`.
    pub fn user(&self, i: usize) -> (user: &User)
        requires
            i < self.entries().len(),
        ensures
            (user@.name, user@) == self.entries()[i as int],
    {
        &self.users[i]
    }

    /// The place of the user named `name`.
    fn position(&self, name: &str) -> (at: Option<usize>)
        ensures
            match at {
                Some(i) => i < self.entries().len() && self.entries()[i as int].0 == name@,
                None => !has_key(self.entries(), name@),
            },
    {
        let mut i: usize = 0;
        while i < self.users.len()
            invariant
                i <= self.users.len(),
                forall|j: int| 0 <= j < i ==> (#[trigger] self.entries()[j]).0 != name@,
            decreases self.users.len() - i,
        {
            if same_text(self.users[i].name.as_str(), name) {
                return Some(i);
            }
            i += 1;
        }
        None
    }

    /// Whether a user is named `name`.
    pub fn contains(&self, name: &str) -> (found: bool)
        ensures
            found == self@.contains_key(name@),
    {
        proof {
            lemma_to_map_keys(self.entries(), name@);
        }
        self.position(name).is_some()
    }

    /// The user named `name`, if there is one.
    pub fn lookup(&self, name: &str) -> (found: Option<&User>)
        requires
            self.wf(),
        ensures
            match found {
                Some(user) => self@.contains_key(name@) && user@ == self@[name@],
                None => !self@.contains_key(name@),
            },
    {
        proof {
            lemma_to_map_keys(self.entries(), name@);
        }
        match self.position(name) {
            Some(i) => {
                proof {
                    lemma_to_map_at(self.entries(), i as int);
                }
                Some(&self.users[i])
            },
            None => None,
        }
    }

    /// Registers `user` under its name, in the place of the user that had
    /// the name, if any.
    pub fn register(&mut self, user: User)
        requires
            old(self).wf(),
        ensures
            final(self).wf(),
            final(self).entries() == put(old(self).entries(), user@.name, user@),
            final(self)@ == old(self)@.insert(user@.name, user@),
    {
        proof {
            lemma_to_map_put(self.entries(), user@.name, user@);
        }
        match self.position(user.name.as_str()) {
            Some(i) => {
                proof {
                    lemma_index_of_key(self.entries(), i as int);
                }
                self.users.set(i, user);
                assert(self.entries() =~= old(self).entries().update(i as int, (user@.name, user@)));
            },
            None => {
                self.users.push(user);
                assert(self.entries() =~= old(self).entries().push((user@.name, user@)));
            },
        }
    }
}

} // verus!
