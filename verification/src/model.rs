//! What completion means, stated over the views of the grammar and over the
//! command line as a sequence of texts.
//!
//! Positions are indices into the sequence of tokens. An option takes the
//! tokens behind its name as its arguments, as far as its arity lets it, and
//! nothing else: the scan resumes at the first token that it did not take.

use crate::structures::{ArgumentCount, CommandView, OptionView, Positional, Text};
use vstd::prelude::*;

verus! {

/// The weight given to an arity without an upper bound when arities are summed.
pub const UNBOUNDED: u64 = u64::MAX;

/// The prefix that marks a grammar entry as not meant for the user.
pub open spec fn hidden_marker() -> Text {
    seq!['_', '_']
}

/// Whether a candidate carries the hidden marker.
pub open spec fn is_hidden(candidate: Text) -> bool {
    hidden_marker().is_prefix_of(candidate)
}

/// The values a positional can complete to: the profile names where it expects a
/// profile, nothing otherwise.
pub open spec fn positional_offer(positional: Positional, profiles: Seq<Text>) -> Seq<Text> {
    if positional.expected_type is Profile {
        profiles
    } else {
        Seq::empty()
    }
}

/// The values an option can complete to: the profile names where it expects a
/// profile, its own literal values otherwise.
pub open spec fn option_offer(option: OptionView, profiles: Seq<Text>) -> Seq<Text> {
    if option.expected_type is Profile {
        profiles
    } else {
        option.values
    }
}

/// How many tokens an arity stands for in the total of a command's positionals.
pub open spec fn arity_weight(arity: ArgumentCount) -> nat {
    match arity {
        ArgumentCount::Fixed(n) => n as nat,
        ArgumentCount::AtMostOne() => 1,
        _ => UNBOUNDED as nat,
    }
}

/// The sum of the weights of the first `n` positionals.
pub open spec fn arity_sum(positionals: Seq<Positional>, n: int) -> nat
    decreases n,
{
    if n <= 0 {
        0
    } else {
        arity_sum(positionals, n - 1) + arity_weight(positionals[n - 1].arguments)
    }
}

/// The number of non-empty tokens that follow each other from `from` on, counted
/// up to `limit`.
pub open spec fn nonempty_run(tokens: Seq<Text>, from: int, limit: int) -> nat
    decreases limit,
{
    if limit <= 0 || !(0 <= from < tokens.len()) || tokens[from].len() == 0 {
        0
    } else {
        1 + nonempty_run(tokens, from + 1, limit - 1)
    }
}

/// Whether an option of the given arity has all that it asks for, where `from` is
/// the position behind its name: a fixed arity finds no empty token among the
/// tokens it asks for. An empty token says that nothing more was typed, so an
/// option that stopped at one still waits for its value. The other arities ask for
/// nothing.
pub open spec fn is_complete(arity: ArgumentCount, tokens: Seq<Text>, from: int) -> bool {
    match arity {
        ArgumentCount::Fixed(n) => forall|i: int|
            from <= i < from + n && 0 <= i < tokens.len() ==> (#[trigger] tokens[i]).len() > 0,
        _ => true,
    }
}

/// What replaying a command's tokens has recorded.
pub struct Replay {
    /// For each option of the command, by its index: the arguments it took, if it
    /// was used, has all that it asks for, and more tokens followed.
    pub used: Seq<Option<Seq<Text>>>,
    /// The tokens taken as positional values, in order.
    pub positionals: Seq<Text>,
    /// The index of the option whose value is being typed, if any.
    pub pending: Option<int>,
}

impl OptionView {
    /// Whether `token` is one of the option's names.
    pub open spec fn has_name(self, token: Text) -> bool {
        self.names.contains(token)
    }
}

impl CommandView {
    /// Whether option `i` is the first option that has `token` among its names.
    pub open spec fn is_first_option(self, token: Text, i: int) -> bool {
        &&& 0 <= i < self.options.len()
        &&& self.options[i].has_name(token)
        &&& forall|k: int| 0 <= k < i ==> !(#[trigger] self.options[k]).has_name(token)
    }

    /// The index of the option that `token` names, if it names one.
    pub open spec fn option_index(self, token: Text) -> Option<int> {
        if exists|i: int| self.is_first_option(token, i) {
            Some(choose|i: int| self.is_first_option(token, i))
        } else {
            None
        }
    }

    /// Whether subcommand `i` is the first subcommand called `token`.
    pub open spec fn is_first_subcommand(self, token: Text, i: int) -> bool {
        &&& 0 <= i < self.subcommands.len()
        &&& self.subcommands[i].name == token
        &&& forall|k: int| 0 <= k < i ==> (#[trigger] self.subcommands[k]).name != token
    }

    /// The index of the subcommand called `token`, if there is one.
    pub open spec fn subcommand_index(self, token: Text) -> Option<int> {
        if exists|i: int| self.is_first_subcommand(token, i) {
            Some(choose|i: int| self.is_first_subcommand(token, i))
        } else {
            None
        }
    }

    /// The total arity of the command's positionals.
    pub open spec fn arity_total(self) -> nat {
        arity_sum(self.positionals, self.positionals.len() as int)
    }

    /// The number of tokens from `from` on that come before the first token that
    /// names an option of this command.
    pub open spec fn argument_run(self, tokens: Seq<Text>, from: int) -> nat
        decreases tokens.len() - from,
    {
        if !(0 <= from < tokens.len()) || self.option_index(tokens[from]) is Some {
            0
        } else {
            1 + self.argument_run(tokens, from + 1)
        }
    }

    /// The number of tokens that an option of this command with the given arity
    /// takes as its arguments, where `from` is the position behind its name.
    ///
    /// A fixed arity takes tokens up to its number and stops before an empty
    /// token. An arity of at most one takes the next token only if that token
    /// names an option of this command. The other arities take every token up
    /// to the next one that names an option of this command.
    pub open spec fn taken(self, arity: ArgumentCount, tokens: Seq<Text>, from: int) -> nat {
        match arity {
            ArgumentCount::Fixed(n) => nonempty_run(tokens, from, n as int),
            ArgumentCount::AtMostOne() => if 0 <= from < tokens.len() && self.option_index(
                tokens[from],
            ) is Some {
                1
            } else {
                0
            },
            _ => self.argument_run(tokens, from),
        }
    }

    /// The tokens that the option takes as its arguments.
    pub open spec fn consumed(self, arity: ArgumentCount, tokens: Seq<Text>, from: int) -> Seq<
        Text,
    > {
        if 0 <= from <= tokens.len() {
            tokens.subrange(from, from + self.taken(arity, tokens, from))
        } else {
            Seq::empty()
        }
    }

    /// The position behind an option's arguments, where the scan resumes: the
    /// first token that the option did not take.
    pub open spec fn resume(self, arity: ArgumentCount, tokens: Seq<Text>, from: int) -> int {
        from + self.taken(arity, tokens, from)
    }

    /// The position of the first token, scanning from `i`, that is called like a
    /// subcommand of this command; the number of tokens if the scan finds none.
    /// The arguments of each option on the way are passed over.
    pub open spec fn boundary_from(self, tokens: Seq<Text>, i: int) -> nat
        decreases tokens.len() - i,
    {
        if !(0 <= i < tokens.len()) {
            tokens.len()
        } else if self.subcommand_index(tokens[i]) is Some {
            i as nat
        } else {
            match self.option_index(tokens[i]) {
                Some(k) => {
                    let next = self.resume(self.options[k].arguments, tokens, i + 1);
                    if next < tokens.len() {
                        self.boundary_from(tokens, next)
                    } else {
                        tokens.len()
                    }
                },
                None => self.boundary_from(tokens, i + 1),
            }
        }
    }

    /// Where the command's own arguments end in `tokens`: the position of the first
    /// subcommand boundary, or the number of tokens.
    pub open spec fn context_end(self, tokens: Seq<Text>) -> nat {
        self.boundary_from(tokens, 0)
    }

    /// The record before any token is replayed.
    pub open spec fn fresh(self) -> Replay {
        Replay {
            used: Seq::new(self.options.len(), |k: int| None),
            positionals: Seq::empty(),
            pending: None,
        }
    }

    /// Replays the tokens from position `i` on, starting from `state`.
    ///
    /// A token that names an option is followed by the option's arguments. Where
    /// more tokens follow and the option has all that it asks for, the option is
    /// recorded as used and the replay goes on behind its arguments. Otherwise the
    /// option is the one whose value is being typed, and the replay ends. Any other
    /// token is a positional value, unless it is the last token, which is the text
    /// being typed.
    pub open spec fn replay_from(self, tokens: Seq<Text>, i: int, state: Replay) -> Replay
        decreases tokens.len() - i,
    {
        if !(0 <= i < tokens.len()) {
            state
        } else {
            match self.option_index(tokens[i]) {
                Some(k) => {
                    let arity = self.options[k].arguments;
                    let next = self.resume(arity, tokens, i + 1);
                    if next < tokens.len() && is_complete(arity, tokens, i + 1) {
                        self.replay_from(
                            tokens,
                            next,
                            Replay {
                                used: state.used.update(
                                    k,
                                    Some(self.consumed(arity, tokens, i + 1)),
                                ),
                                positionals: state.positionals,
                                pending: None,
                            },
                        )
                    } else {
                        Replay {
                            used: state.used,
                            positionals: state.positionals,
                            pending: Some(k),
                        }
                    }
                },
                None => if i + 1 < tokens.len() {
                    self.replay_from(
                        tokens,
                        i + 1,
                        Replay {
                            used: state.used,
                            positionals: state.positionals.push(tokens[i]),
                            pending: state.pending,
                        },
                    )
                } else {
                    state
                },
            }
        }
    }

    /// Replays the command's own tokens. The first token is the command's name and
    /// is passed over.
    pub open spec fn replay(self, tokens: Seq<Text>) -> Replay {
        self.replay_from(tokens, 1, self.fresh())
    }

    /// The names of those of the first `n` options that `used` does not record.
    pub open spec fn unused_names(self, used: Seq<Option<Seq<Text>>>, n: int) -> Seq<Text>
        decreases n,
    {
        if n <= 0 {
            Seq::empty()
        } else {
            self.unused_names(used, n - 1) + if used[n - 1] is None {
                self.options[n - 1].names
            } else {
                Seq::empty()
            }
        }
    }

    /// The names of the command's subcommands.
    pub open spec fn subcommand_names(self) -> Seq<Text> {
        Seq::new(self.subcommands.len(), |i: int| self.subcommands[i].name)
    }

    /// The index of the positional that comes next after `count` positional values:
    /// the last positional stands for all further values.
    pub open spec fn positional_slot(self, count: nat) -> int {
        if count < self.positionals.len() - 1 {
            count as int
        } else {
            self.positionals.len() - 1
        }
    }

    /// The values offered for the next positional after `count` positional values:
    /// none once the total arity is reached.
    pub open spec fn positional_values(self, count: nat, profiles: Seq<Text>) -> Seq<Text> {
        if count < self.arity_total() {
            positional_offer(self.positionals[self.positional_slot(count)], profiles)
        } else {
            Seq::empty()
        }
    }

    /// The candidates for the next token of the command whose own tokens are
    /// `tokens`.
    pub open spec fn candidates(self, tokens: Seq<Text>, profiles: Seq<Text>) -> Seq<Text> {
        let record = self.replay(tokens);
        match record.pending {
            Some(k) => option_offer(self.options[k], profiles),
            None => self.unused_names(record.used, self.options.len() as int)
                + self.subcommand_names() + self.positional_values(
                record.positionals.len(),
                profiles,
            ),
        }
    }
}

/// Walks down the grammar from `context`, whose own tokens begin at `start`, with
/// the scan at `position`. Gives the deepest command reached and the position
/// where its own tokens begin.
pub open spec fn descend_from(
    context: CommandView,
    start: int,
    position: int,
    tokens: Seq<Text>,
) -> (CommandView, int)
    decreases tokens.len() - position,
{
    if !(0 <= position < tokens.len()) {
        (context, start)
    } else if tokens[position].len() == 0 {
        descend_from(context, start, position + 1, tokens)
    } else {
        let skip = context.context_end(tokens.skip(position));
        if 0 < skip < tokens.len() - position {
            match context.subcommand_index(tokens[position + skip]) {
                Some(k) => descend_from(
                    context.subcommands[k],
                    position + skip,
                    position + skip,
                    tokens,
                ),
                None => (context, start),
            }
        } else {
            (context, start)
        }
    }
}

/// The deepest command that the tokens lead to from `root`, and the position
/// where its own tokens begin.
pub open spec fn descend(root: CommandView, tokens: Seq<Text>) -> (CommandView, int) {
    descend_from(root, 0, 0, tokens)
}

/// The text that candidates are held against: the last token, or the empty text
/// where there is no token.
pub open spec fn typed_prefix(tokens: Seq<Text>) -> Text {
    if tokens.len() > 0 {
        tokens.last()
    } else {
        Seq::empty()
    }
}

/// The test that a candidate is not hidden.
pub open spec fn shown() -> spec_fn(Text) -> bool {
    |candidate: Text| !is_hidden(candidate)
}

/// The test that a candidate begins with `prefix`.
pub open spec fn begins_with(prefix: Text) -> spec_fn(Text) -> bool {
    |candidate: Text| prefix.is_prefix_of(candidate)
}

/// The completions of a command line: the candidates of the deepest command
/// reached, without the hidden ones, and of those the ones that begin with the
/// last token.
pub open spec fn completions(root: CommandView, tokens: Seq<Text>, profiles: Seq<Text>) -> Seq<
    Text,
> {
    let (context, start) = descend(root, tokens);
    context.candidates(tokens.skip(start), profiles).filter(shown()).filter(
        begins_with(typed_prefix(tokens)),
    )
}

} // verus!
