//! What each definition of the grammar can complete to.

use crate::model::{option_offer, positional_offer};
use crate::structures::{Command, CommandView, Option_, Positional, Profile, Text};
use crate::text::{duplicate, extend_with};
use itertools::Itertools;
use vstd::prelude::*;

verus! {

/// A definition that offers values for completion.
pub trait Completable {
    /// The values that the definition offers, given the names of the profiles.
    spec fn offer(&self, profiles: Seq<Text>) -> Seq<Text>;

    /// The values that the definition offers.
    fn available(&self, profiles: &Vec<Profile>) -> (r: Vec<String>)
        ensures
            r.deep_view() == self.offer(profiles.deep_view()),
    ;
}

/// The items of `items` without those that occurred before: of equal items the
/// first stays, and the order is kept.
pub open spec fn distinct(items: Seq<Text>) -> Seq<Text>
    decreases items.len(),
{
    if items.len() == 0 {
        items
    } else {
        let before = distinct(items.drop_last());
        if before.contains(items.last()) {
            before
        } else {
            before.push(items.last())
        }
    }
}

/// The values offered by the first `n` of the positionals, one after the other.
pub open spec fn positional_offers(positionals: Seq<Positional>, profiles: Seq<Text>, n: int) -> Seq<
    Text,
>
    decreases n,
{
    if n <= 0 {
        Seq::empty()
    } else {
        positional_offers(positionals, profiles, n - 1) + positional_offer(
            positionals[n - 1],
            profiles,
        )
    }
}

impl CommandView {
    /// The names of the first `n` options of the command.
    pub open spec fn option_names(self, n: int) -> Seq<Text>
        decreases n,
    {
        if n <= 0 {
            Seq::empty()
        } else {
            self.option_names(n - 1) + self.options[n - 1].names
        }
    }

    /// Everything that the command can complete to, whatever has been typed: the
    /// names of its options and of its subcommands, and the values of its
    /// positionals, each value once.
    pub open spec fn everything(self, profiles: Seq<Text>) -> Seq<Text> {
        self.option_names(self.options.len() as int) + self.subcommand_names() + distinct(
            positional_offers(self.positionals, profiles, self.positionals.len() as int),
        )
    }
}

/// `Itertools::unique` over the strings of a list: it yields each string the
/// first time it occurs and passes over it afterwards, so that the strings come
/// out in the order of their first occurrence.
#[verifier::external_body]
fn unique(items: Vec<String>) -> (r: Vec<String>)
    ensures
        r.deep_view() == distinct(items.deep_view()),
{
    items.into_iter().unique().collect()
}

/// The names of the profiles.
pub fn profile_names(profiles: &Vec<Profile>) -> (r: Vec<String>)
    ensures
        r.deep_view() == profiles.deep_view(),
{
    let mut names: Vec<String> = Vec::new();
    let mut i: usize = 0;
    while i < profiles.len()
        invariant
            i <= profiles@.len(),
            names.deep_view() == profiles.deep_view().take(i as int),
        decreases profiles@.len() - i,
    {
        let ghost before = names.deep_view();
        names.push(profiles[i].name.clone());
        assert(names.deep_view() =~= before.push(profiles.deep_view()[i as int]));
        i += 1;
    }
    names
}

impl Command {
    /// Appends the names of the command's subcommands to `target`.
    pub fn push_subcommand_names(&self, target: &mut Vec<String>)
        ensures
            final(target).deep_view() == old(target).deep_view() + self@.subcommand_names(),
    {
        let mut i: usize = 0;
        proof {
            self.lemma_view();
        }
        while i < self.subcommands.len()
            invariant
                i <= self.subcommands@.len(),
                self@.subcommands.len() == self.subcommands@.len(),
                forall|k: int|
                    0 <= k < self.subcommands@.len() ==> #[trigger] self@.subcommands[k]
                        == self.subcommands@[k]@,
                target.deep_view() == old(target).deep_view() + self@.subcommand_names().take(
                    i as int,
                ),
            decreases self.subcommands@.len() - i,
        {
            let ghost before = target.deep_view();
            proof {
                self.subcommands@[i as int].lemma_view();
            }
            target.push(self.subcommands[i].name.clone());
            assert(target.deep_view() =~= before.push(self@.subcommand_names()[i as int]));
            i += 1;
        }
    }
}

impl Completable for Positional {
    open spec fn offer(&self, profiles: Seq<Text>) -> Seq<Text> {
        positional_offer(*self, profiles)
    }

    fn available(&self, profiles: &Vec<Profile>) -> (r: Vec<String>) {
        match self.expected_type {
            crate::structures::ExpectedType::Profile() => profile_names(profiles),
            _ => {
                let none: Vec<String> = Vec::new();
                assert(none.deep_view() =~= Seq::<Text>::empty());
                none
            },
        }
    }
}

impl Completable for Option_ {
    open spec fn offer(&self, profiles: Seq<Text>) -> Seq<Text> {
        option_offer(self@, profiles)
    }

    fn available(&self, profiles: &Vec<Profile>) -> (r: Vec<String>) {
        match self.expected_type {
            crate::structures::ExpectedType::Profile() => profile_names(profiles),
            _ => duplicate(&self.values),
        }
    }
}

impl Completable for Command {
    open spec fn offer(&self, profiles: Seq<Text>) -> Seq<Text> {
        self@.everything(profiles)
    }

    fn available(&self, profiles: &Vec<Profile>) -> (r: Vec<String>) {
        let mut available: Vec<String> = Vec::new();
        assert(available.deep_view() =~= Seq::<Text>::empty());
        proof {
            self.lemma_view();
        }
        let mut i: usize = 0;
        while i < self.options.len()
            invariant
                i <= self.options@.len(),
                self@.options == self.options.deep_view(),
                available.deep_view() == self@.option_names(i as int),
            decreases self.options@.len() - i,
        {
            extend_with(&mut available, &self.options[i].names);
            i += 1;
        }
        self.push_subcommand_names(&mut available);
        let mut values: Vec<String> = Vec::new();
        assert(values.deep_view() =~= Seq::<Text>::empty());
        let mut j: usize = 0;
        while j < self.positionals.len()
            invariant
                j <= self.positionals@.len(),
                self@.positionals == self.positionals@,
                values.deep_view() == positional_offers(
                    self@.positionals,
                    profiles.deep_view(),
                    j as int,
                ),
            decreases self.positionals@.len() - j,
        {
            let offered = self.positionals[j].available(profiles);
            extend_with(&mut values, &offered);
            j += 1;
        }
        let values = unique(values);
        extend_with(&mut available, &values);
        available
    }
}

} // verus!
