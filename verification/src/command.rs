//! Lookups in a command: its options, its subcommands, its positionals.

use crate::model::{arity_sum, arity_weight, UNBOUNDED};
use crate::structures::{ArgumentCount, Command, Option_};
use vstd::prelude::*;

verus! {

impl Option_ {
    /// Whether `token` is one of the option's names.
    pub fn has_name(&self, token: &String) -> (r: bool)
        ensures
            r == self@.has_name(token@),
    {
        let mut j: usize = 0;
        while j < self.names.len()
            invariant
                j <= self.names@.len(),
                forall|k: int| 0 <= k < j ==> self@.names[k] != token@,
            decreases self.names@.len() - j,
        {
            if self.names[j] == *token {
                assert(self@.names[j as int] == token@);
                return true;
            }
            j += 1;
        }
        false
    }
}

impl Command {
    /// The index of the first option that has `token` among its names.
    pub fn option_index(&self, token: &str) -> (r: Option<usize>)
        ensures
            match r {
                Some(i) => self@.option_index(token@) == Some(i as int),
                None => self@.option_index(token@) is None,
            },
    {
        let wanted = token.to_owned();
        let mut i: usize = 0;
        proof {
            self.lemma_view();
        }
        while i < self.options.len()
            invariant
                i <= self.options@.len(),
                wanted@ == token@,
                self@.options == self.options.deep_view(),
                forall|k: int| 0 <= k < i ==> !(#[trigger] self@.options[k]).has_name(token@),
            decreases self.options@.len() - i,
        {
            if self.options[i].has_name(&wanted) {
                assert(self@.is_first_option(token@, i as int));
                return Some(i);
            }
            i += 1;
        }
        None
    }

    /// The option that `token` names, if it names one: the first option that has
    /// `token` among its names.
    pub fn is_option(&self, token: &str) -> (r: Option<&Option_>)
        ensures
            match self@.option_index(token@) {
                Some(i) => 0 <= i < self.options@.len() && r == Some(&self.options@[i]),
                None => r is None,
            },
    {
        match self.option_index(token) {
            Some(i) => Some(&self.options[i]),
            None => None,
        }
    }

    /// The index of the first subcommand called `token`.
    pub fn subcommand_index(&self, token: &str) -> (r: Option<usize>)
        ensures
            match r {
                Some(i) => self@.subcommand_index(token@) == Some(i as int),
                None => self@.subcommand_index(token@) is None,
            },
    {
        let wanted = token.to_owned();
        let mut i: usize = 0;
        proof {
            self.lemma_view();
        }
        while i < self.subcommands.len()
            invariant
                i <= self.subcommands@.len(),
                wanted@ == token@,
                self@.subcommands.len() == self.subcommands@.len(),
                forall|k: int|
                    0 <= k < self.subcommands@.len() ==> #[trigger] self@.subcommands[k]
                        == self.subcommands@[k]@,
                forall|k: int| 0 <= k < i ==> (#[trigger] self@.subcommands[k]).name != token@,
            decreases self.subcommands@.len() - i,
        {
            proof {
                self.subcommands@[i as int].lemma_view();
            }
            if self.subcommands[i].name == wanted {
                assert(self@.is_first_subcommand(token@, i as int));
                return Some(i);
            }
            i += 1;
        }
        None
    }

    /// The subcommand called `token`, if there is one: the first of that name.
    pub fn is_subcommand(&self, token: &str) -> (r: Option<&Command>)
        ensures
            match self@.subcommand_index(token@) {
                Some(i) => 0 <= i < self.subcommands@.len() && r == Some(&self.subcommands@[i]),
                None => r is None,
            },
    {
        match self.subcommand_index(token) {
            Some(i) => Some(&self.subcommands[i]),
            None => None,
        }
    }

    /// The total arity of the command's positionals, or `usize::MAX` where the
    /// total is larger than that.
    pub fn positional_count(&self) -> (r: usize)
        ensures
            r == if self@.arity_total() <= usize::MAX {
                self@.arity_total()
            } else {
                usize::MAX as nat
            },
    {
        let mut total: usize = 0;
        let mut i: usize = 0;
        proof {
            self.lemma_view();
        }
        while i < self.positionals.len()
            invariant
                i <= self.positionals@.len(),
                self@.positionals == self.positionals@,
                total == if arity_sum(self@.positionals, i as int) <= usize::MAX {
                    arity_sum(self@.positionals, i as int)
                } else {
                    usize::MAX as nat
                },
            decreases self.positionals@.len() - i,
        {
            let weight: u64 = match self.positionals[i].arguments {
                ArgumentCount::Fixed(n) => n,
                ArgumentCount::AtMostOne() => 1,
                _ => UNBOUNDED,
            };
            assert(weight == arity_weight(self@.positionals[i as int].arguments));
            if weight > (usize::MAX - total) as u64 {
                total = usize::MAX;
            } else {
                total = total + weight as usize;
            }
            i += 1;
        }
        total
    }
}

} // verus!
