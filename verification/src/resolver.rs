//! Replaying a command's own tokens, and the candidates that follow from it.

use crate::completable::Completable;
use crate::model::Replay;
use crate::structures::{Command, Profile, Text};
use crate::text::extend_with;
use vstd::prelude::*;

verus! {

/// What the tokens typed so far for a command have used up.
#[derive(Debug)]
pub struct PreviousCommandArgs {
    /// For each option of the command, by its index: the arguments it took, if it
    /// was used, has all that it asks for, and more tokens followed.
    pub options: Vec<Option<Vec<String>>>,
    /// The tokens taken as positional values, in order.
    pub positionals: Vec<String>,
    /// The index of the option whose value is being typed, if any.
    pub pending: Option<usize>,
}

impl View for PreviousCommandArgs {
    type V = Replay;

    open spec fn view(&self) -> Replay {
        Replay {
            used: self.options.deep_view(),
            positionals: self.positionals.deep_view(),
            pending: match self.pending {
                Some(k) => Some(k as int),
                None => None,
            },
        }
    }
}

impl Command {
    /// Replays the command's own tokens: `arguments` begins with the command's
    /// name, which is passed over.
    pub fn replay(&self, arguments: &[String]) -> (used: PreviousCommandArgs)
        ensures
            used@ == self@.replay(arguments.deep_view()),
            used.options@.len() == self.options@.len(),
            used.pending matches Some(k) ==> k < self.options@.len(),
            used.positionals@.len() < usize::MAX,
    {
        let ghost tokens = arguments.deep_view();
        proof {
            self.lemma_view();
        }
        let mut options: Vec<Option<Vec<String>>> = Vec::new();
        let mut n: usize = 0;
        while n < self.options.len()
            invariant
                n <= self.options@.len(),
                options.deep_view() == Seq::new(n as nat, |k: int| None::<Seq<Text>>),
            decreases self.options@.len() - n,
        {
            let ghost before = options.deep_view();
            options.push(None);
            assert(options.deep_view() =~= before.push(None));
            n += 1;
        }
        let mut used = PreviousCommandArgs { options, positionals: Vec::new(), pending: None };
        assert(used@.used =~= self@.fresh().used);
        assert(used@.positionals =~= self@.fresh().positionals);
        let mut i: usize = 1;
        while i < arguments.len()
            invariant
                tokens == arguments.deep_view(),
                self@.options == self.options.deep_view(),
                1 <= i,
                used.options@.len() == self.options@.len(),
                used.positionals@.len() < i,
                used.pending matches Some(k) ==> k < self.options@.len() && i >= tokens.len(),
                self@.replay_from(tokens, i as int, used@) == self@.replay(tokens),
            decreases tokens.len() - i,
        {
            let ghost before = used@;
            match self.option_index(arguments[i].as_str()) {
                Some(k) => {
                    let mut next: usize = i + 1;
                    let option_args = self.options[k].consume_args(self, arguments, &mut next);
                    if next < arguments.len() && self.options[k].complete(arguments, i + 1) {
                        used.options.set(k, Some(option_args));
                        assert(used@.used =~= before.used.update(
                            k as int,
                            Some(
                                self@.consumed(self@.options[k as int].arguments, tokens, i + 1),
                            ),
                        ));
                        i = next;
                    } else {
                        used.pending = Some(k);
                        i = arguments.len();
                    }
                },
                None => {
                    if i + 1 < arguments.len() {
                        used.positionals.push(arguments[i].clone());
                        assert(used@.positionals =~= before.positionals.push(tokens[i as int]));
                    }
                    i += 1;
                },
            }
        }
        used
    }

    /// The candidates for the next token of the command: `arguments` holds the
    /// command's own tokens and begins with its name.
    ///
    /// Where the last thing typed is an option that still waits for its value, these
    /// are the values of that option. Otherwise they are the names of the options
    /// not yet used, then the names of the subcommands, then the values of the
    /// positional that comes next, unless the positionals have all been given.
    pub fn candidates(&self, arguments: &[String], profiles: &Vec<Profile>) -> (r: Vec<String>)
        ensures
            r.deep_view() == self@.candidates(arguments.deep_view(), profiles.deep_view()),
    {
        let used = self.replay(arguments);
        proof {
            self.lemma_view();
        }
        match used.pending {
            Some(k) => self.options[k].available(profiles),
            None => {
                let mut available: Vec<String> = Vec::new();
                assert(available.deep_view() =~= Seq::<Text>::empty());
                let mut i: usize = 0;
                while i < self.options.len()
                    invariant
                        i <= self.options@.len(),
                        used.options@.len() == self.options@.len(),
                        self@.options == self.options.deep_view(),
                        available.deep_view() == self@.unused_names(used@.used, i as int),
                    decreases self.options@.len() - i,
                {
                    if used.options[i].is_none() {
                        extend_with(&mut available, &self.options[i].names);
                    } else {
                        assert(available.deep_view() + Seq::<Text>::empty()
                            =~= available.deep_view());
                    }
                    i += 1;
                }
                self.push_subcommand_names(&mut available);
                let count = used.positionals.len();
                if count < self.positional_count() {
                    let last = self.positionals.len() - 1;
                    let slot = if count < last {
                        count
                    } else {
                        last
                    };
                    let offered = self.positionals[slot].available(profiles);
                    extend_with(&mut available, &offered);
                } else {
                    assert(available.deep_view() + Seq::<Text>::empty() =~= available.deep_view());
                }
                available
            },
        }
    }
}

} // verus!
