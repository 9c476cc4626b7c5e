//! What holds of completion in general.

use crate::model::{
    begins_with, completions, descend, descend_from, is_complete, is_hidden, nonempty_run,
    option_offer, shown, typed_prefix, Replay,
};
use crate::option::lemma_run_stops_at_empty;
use crate::structures::{ArgumentCount, Command, CommandView, Profile, Text};
use vstd::prelude::*;

verus! {

impl CommandView {
    /// Whether no name belongs to two options of the command.
    pub open spec fn aliases_unique(self) -> bool {
        forall|i: int, j: int, name: Text|
            0 <= i < self.options.len() && 0 <= j < self.options.len() && i != j && (
            #[trigger] self.options[i].has_name(name)) ==> !(#[trigger] self.options[j].has_name(
                name,
            ))
    }

    /// Whether no two subcommands of the command have the same name.
    pub open spec fn subcommands_unique(self) -> bool {
        forall|i: int, j: int|
            0 <= i < self.subcommands.len() && 0 <= j < self.subcommands.len() && i != j ==> (
            #[trigger] self.subcommands[i]).name != (#[trigger] self.subcommands[j]).name
    }

    /// Whether the grammar below this command is well formed: every option has a
    /// name, no name belongs to two options of one command, no two subcommands of
    /// one command have the same name, and the same holds of each subcommand.
    pub open spec fn well_formed(self) -> bool
        decreases self,
    {
        &&& forall|i: int| 0 <= i < self.options.len() ==> (#[trigger] self.options[i]).names.len() > 0
        &&& self.aliases_unique()
        &&& self.subcommands_unique()
        &&& forall|i: int|
            0 <= i < self.subcommands.len() ==> (#[trigger] self.subcommands[i]).well_formed()
    }

    /// Where no name belongs to two options, each option is found under each of
    /// its names.
    pub proof fn lemma_option_found_under_its_names(self, k: int, name: Text)
        requires
            self.aliases_unique(),
            0 <= k < self.options.len(),
            self.options[k].has_name(name),
        ensures
            self.option_index(name) == Some(k),
    {
        assert(self.is_first_option(name, k));
    }

    /// Where no two subcommands have the same name, each subcommand is found under
    /// its name.
    pub proof fn lemma_subcommand_found_under_its_name(self, k: int)
        requires
            self.subcommands_unique(),
            0 <= k < self.subcommands.len(),
        ensures
            self.subcommand_index(self.subcommands[k].name) == Some(k),
    {
        assert(self.is_first_subcommand(self.subcommands[k].name, k));
    }

    /// The values that are offered after a replay: those of the option whose
    /// value is being typed, or else those of the positional that comes next.
    pub open spec fn values_offered(self, record: Replay, profiles: Seq<Text>) -> Seq<Text> {
        match record.pending {
            Some(k) => option_offer(self.options[k], profiles),
            None => self.positional_values(record.positionals.len(), profiles),
        }
    }

    /// A name is among the names of the unused options exactly when an option that
    /// is not recorded as used has it.
    pub proof fn lemma_unused_names(self, used: Seq<Option<Seq<Text>>>, n: int, name: Text)
        requires
            0 <= n <= self.options.len(),
        ensures
            self.unused_names(used, n).contains(name) <==> exists|j: int|
                0 <= j < n && used[j] is None && (#[trigger] self.options[j]).has_name(name),
        decreases n,
    {
        if n > 0 {
            self.lemma_unused_names(used, n - 1, name);
            let before = self.unused_names(used, n - 1);
            let last = if used[n - 1] is None {
                self.options[n - 1].names
            } else {
                Seq::empty()
            };
            let all = self.unused_names(used, n);
            assert(all == before + last);
            if all.contains(name) {
                let at = choose|at: int| 0 <= at < all.len() && all[at] == name;
                if at < before.len() {
                    assert(before[at] == name);
                    assert(before.contains(name));
                } else {
                    assert(last[at - before.len()] == name);
                    assert(self.options[n - 1].has_name(name));
                }
            }
            if exists|j: int|
                0 <= j < n && used[j] is None && (#[trigger] self.options[j]).has_name(name) {
                let j = choose|j: int|
                    0 <= j < n && used[j] is None && (#[trigger] self.options[j]).has_name(name);
                if j < n - 1 {
                    let at = choose|at: int| 0 <= at < before.len() && before[at] == name;
                    assert(all[at] == name);
                } else {
                    let at = choose|at: int| 0 <= at < last.len() && last[at] == name;
                    assert(all[before.len() + at] == name);
                }
            }
        }
    }

    /// Whether the replay that begins at position `i` comes to position `j`: every
    /// option on the way has all that it asks for and is followed by more tokens.
    pub open spec fn scan_reaches(self, tokens: Seq<Text>, i: int, j: int) -> bool
        decreases tokens.len() - i,
    {
        if i == j {
            true
        } else if !(0 <= i < tokens.len()) || j < i {
            false
        } else {
            match self.option_index(tokens[i]) {
                Some(k) => {
                    let arity = self.options[k].arguments;
                    let next = self.resume(arity, tokens, i + 1);
                    if next < tokens.len() && is_complete(arity, tokens, i + 1) {
                        self.scan_reaches(tokens, next, j)
                    } else {
                        false
                    }
                },
                None => self.scan_reaches(tokens, i + 1, j),
            }
        }
    }

    /// An option takes its arguments from the tokens that are there: its arguments
    /// end within the line, and the scan resumes right behind them.
    pub proof fn lemma_arguments_end_within_the_line(
        self,
        arity: ArgumentCount,
        tokens: Seq<Text>,
        from: int,
    )
        requires
            0 <= from <= tokens.len(),
        ensures
            self.resume(arity, tokens, from) <= tokens.len(),
            self.resume(arity, tokens, from) == from + self.consumed(arity, tokens, from).len(),
    {
        match arity {
            ArgumentCount::Fixed(n) => {
                lemma_nonempty_run_within(tokens, from, n as int);
            },
            ArgumentCount::AtMostOne() => {},
            _ => {
                self.lemma_argument_run_within(tokens, from);
            },
        }
    }

    /// A run of arguments ends within the line.
    proof fn lemma_argument_run_within(self, tokens: Seq<Text>, from: int)
        requires
            0 <= from <= tokens.len(),
        ensures
            from + self.argument_run(tokens, from) <= tokens.len(),
        decreases tokens.len() - from,
    {
        if from < tokens.len() && self.option_index(tokens[from]) is None {
            self.lemma_argument_run_within(tokens, from + 1);
        }
    }

    /// What the replay has recorded as used stays recorded as used to its end.
    pub proof fn lemma_used_stays(self, tokens: Seq<Text>, i: int, state: Replay, k: int)
        requires
            state.used.len() == self.options.len(),
            0 <= k < self.options.len(),
            state.used[k] is Some,
        ensures
            self.replay_from(tokens, i, state).used[k] is Some,
        decreases tokens.len() - i,
    {
        if 0 <= i < tokens.len() {
            match self.option_index(tokens[i]) {
                Some(found) => {
                    assert(self.is_first_option(tokens[i], found));
                    let arity = self.options[found].arguments;
                    let next = self.resume(arity, tokens, i + 1);
                    if next < tokens.len() && is_complete(arity, tokens, i + 1) {
                        self.lemma_used_stays(
                            tokens,
                            next,
                            Replay {
                                used: state.used.update(
                                    found,
                                    Some(self.consumed(arity, tokens, i + 1)),
                                ),
                                positionals: state.positionals,
                                pending: None,
                            },
                            k,
                        );
                    }
                },
                None => {
                    if i + 1 < tokens.len() {
                        self.lemma_used_stays(
                            tokens,
                            i + 1,
                            Replay {
                                used: state.used,
                                positionals: state.positionals.push(tokens[i]),
                                pending: state.pending,
                            },
                            k,
                        );
                    }
                },
            }
        }
    }

    /// An option whose name the replay comes to, and behind whose arguments more
    /// tokens follow, is recorded as used at the end of the replay, or is the option
    /// whose value is being typed.
    pub proof fn lemma_scanned_option_recorded(
        self,
        tokens: Seq<Text>,
        i: int,
        j: int,
        state: Replay,
        k: int,
    )
        requires
            state.used.len() == self.options.len(),
            self.scan_reaches(tokens, i, j),
            0 <= j < tokens.len(),
            self.option_index(tokens[j]) == Some(k),
            self.resume(self.options[k].arguments, tokens, j + 1) < tokens.len(),
        ensures
            self.replay_from(tokens, i, state).used[k] is Some || self.replay_from(
                tokens,
                i,
                state,
            ).pending == Some(k),
        decreases tokens.len() - i,
    {
        assert(self.is_first_option(tokens[j], k));
        if i == j {
            let arity = self.options[k].arguments;
            let next = self.resume(arity, tokens, j + 1);
            if is_complete(arity, tokens, j + 1) {
                self.lemma_used_stays(
                    tokens,
                    next,
                    Replay {
                        used: state.used.update(k, Some(self.consumed(arity, tokens, j + 1))),
                        positionals: state.positionals,
                        pending: None,
                    },
                    k,
                );
            }
        } else {
            match self.option_index(tokens[i]) {
                Some(found) => {
                    assert(self.is_first_option(tokens[i], found));
                    let arity = self.options[found].arguments;
                    let next = self.resume(arity, tokens, i + 1);
                    self.lemma_scanned_option_recorded(
                        tokens,
                        next,
                        j,
                        Replay {
                            used: state.used.update(
                                found,
                                Some(self.consumed(arity, tokens, i + 1)),
                            ),
                            positionals: state.positionals,
                            pending: None,
                        },
                        k,
                    );
                },
                None => {
                    self.lemma_scanned_option_recorded(
                        tokens,
                        i + 1,
                        j,
                        Replay {
                            used: state.used,
                            positionals: state.positionals.push(tokens[i]),
                            pending: state.pending,
                        },
                        k,
                    );
                },
            }
        }
    }

    /// An option that was given on the command line, with more tokens behind its
    /// arguments, is not offered again.
    ///
    /// The option is the one named by the token at a position `j` that the replay
    /// comes to. Candidates are texts, so this is stated of a name of that option,
    /// for a command whose options share no name, and of a name that is not offered
    /// as something else: as the name of a subcommand or as a value.
    pub proof fn lemma_given_option_not_offered_again(
        self,
        tokens: Seq<Text>,
        profiles: Seq<Text>,
        j: int,
        k: int,
        name: Text,
    )
        requires
            self.aliases_unique(),
            self.scan_reaches(tokens, 1, j),
            0 <= j < tokens.len(),
            self.option_index(tokens[j]) == Some(k),
            self.resume(self.options[k].arguments, tokens, j + 1) < tokens.len(),
            self.options[k].has_name(name),
            !self.subcommand_names().contains(name),
            !self.values_offered(self.replay(tokens), profiles).contains(name),
        ensures
            !self.candidates(tokens, profiles).contains(name),
    {
        assert(self.is_first_option(tokens[j], k));
        self.lemma_scanned_option_recorded(tokens, 1, j, self.fresh(), k);
        if self.replay(tokens).pending is None {
            self.lemma_used_option_not_offered(tokens, profiles, k, name);
        }
    }

    /// The candidates never include an option that the replay has recorded as
    /// used.
    ///
    /// Candidates are texts, so this is stated of a name of such an option, for a
    /// command whose options share no name, and of a name that is not offered as
    /// something else: as the name of a subcommand or as a value.
    pub proof fn lemma_used_option_not_offered(
        self,
        tokens: Seq<Text>,
        profiles: Seq<Text>,
        k: int,
        name: Text,
    )
        requires
            self.aliases_unique(),
            0 <= k < self.options.len(),
            self.replay(tokens).used[k] is Some,
            self.options[k].has_name(name),
            !self.subcommand_names().contains(name),
            !self.values_offered(self.replay(tokens), profiles).contains(name),
        ensures
            !self.candidates(tokens, profiles).contains(name),
    {
        let record = self.replay(tokens);
        if record.pending is None {
            let names = self.unused_names(record.used, self.options.len() as int);
            let subcommands = self.subcommand_names();
            let values = self.positional_values(record.positionals.len(), profiles);
            let all = self.candidates(tokens, profiles);
            assert(all == names + subcommands + values);
            self.lemma_unused_names(record.used, self.options.len() as int, name);
            if all.contains(name) {
                let at = choose|at: int| 0 <= at < all.len() && all[at] == name;
                if at < names.len() {
                    assert(names[at] == name);
                    assert(names.contains(name));
                } else if at < names.len() + subcommands.len() {
                    assert(subcommands[at - names.len()] == name);
                } else {
                    assert(values[at - names.len() - subcommands.len()] == name);
                }
            }
        }
    }

    /// An option with a fixed arity that meets an empty token among the tokens it
    /// asks for takes fewer tokens than its number.
    pub proof fn lemma_fixed_stops_at_empty_token(
        self,
        n: u64,
        tokens: Seq<Text>,
        from: int,
        empty: int,
    )
        requires
            0 <= from <= empty < tokens.len(),
            empty < from + n,
            tokens[empty].len() == 0,
        ensures
            self.taken(ArgumentCount::Fixed(n), tokens, from) < n,
            self.consumed(ArgumentCount::Fixed(n), tokens, from).len() < n,
    {
        lemma_run_stops_at_empty(tokens, from, n as int, empty);
    }
}

/// A run of non-empty tokens ends within the line.
proof fn lemma_nonempty_run_within(tokens: Seq<Text>, from: int, limit: int)
    requires
        0 <= from <= tokens.len(),
    ensures
        from + nonempty_run(tokens, from, limit) <= tokens.len(),
    decreases limit,
{
    if limit > 0 && from < tokens.len() && tokens[from].len() != 0 {
        lemma_nonempty_run_within(tokens, from + 1, limit - 1);
    }
}

/// The descent ends at a command of the grammar, whose own tokens begin within
/// the command line: from a well-formed grammar it reaches a well-formed command.
pub proof fn lemma_descent_stays_in_the_grammar(
    context: CommandView,
    start: int,
    position: int,
    tokens: Seq<Text>,
)
    requires
        context.well_formed(),
        0 <= start <= position,
        start <= tokens.len(),
    ensures
        descend_from(context, start, position, tokens).0.well_formed(),
        start <= descend_from(context, start, position, tokens).1 <= tokens.len(),
    decreases tokens.len() - position,
{
    if 0 <= position < tokens.len() {
        if tokens[position].len() == 0 {
            lemma_descent_stays_in_the_grammar(context, start, position + 1, tokens);
        } else {
            let skip = context.context_end(tokens.skip(position));
            if 0 < skip < tokens.len() - position {
                match context.subcommand_index(tokens[position + skip]) {
                    Some(k) => {
                        assert(context.is_first_subcommand(tokens[position + skip], k));
                        lemma_descent_stays_in_the_grammar(
                            context.subcommands[k],
                            position + skip,
                            position + skip,
                            tokens,
                        );
                    },
                    None => {},
                }
            }
        }
    }
}

/// No completion is hidden, and every completion begins with the last token.
pub proof fn lemma_completions_are_filtered(
    root: CommandView,
    tokens: Seq<Text>,
    profiles: Seq<Text>,
    i: int,
)
    requires
        0 <= i < completions(root, tokens, profiles).len(),
    ensures
        !is_hidden(completions(root, tokens, profiles)[i]),
        typed_prefix(tokens).is_prefix_of(completions(root, tokens, profiles)[i]),
{
    broadcast use vstd::seq_lib::group_filter_ensures;

    let (context, start) = descend(root, tokens);
    let visible = context.candidates(tokens.skip(start), profiles).filter(shown());
    let kept = visible.filter(begins_with(typed_prefix(tokens)));
    assert(begins_with(typed_prefix(tokens))(kept[i]));
    visible.lemma_filter_contains_rev(begins_with(typed_prefix(tokens)), kept[i]);
    let at = choose|at: int| 0 <= at < visible.len() && visible[at] == kept[i];
    assert(shown()(visible[at]));
}

/// Where the last token is empty, the completions are the candidates that are
/// not hidden, unchanged.
pub proof fn lemma_empty_token_keeps_candidates(
    root: CommandView,
    tokens: Seq<Text>,
    profiles: Seq<Text>,
)
    requires
        typed_prefix(tokens).len() == 0,
    ensures
        completions(root, tokens, profiles) == descend(root, tokens).0.candidates(
            tokens.skip(descend(root, tokens).1),
            profiles,
        ).filter(shown()),
{
    let (context, start) = descend(root, tokens);
    let visible = context.candidates(tokens.skip(start), profiles).filter(shown());
    let prefix = typed_prefix(tokens);
    assert forall|k: int| 0 <= k < visible.len() implies begins_with(prefix)(
        #[trigger] visible[k],
    ) by {
        assert(visible[k].subrange(0, 0) =~= prefix);
    }
    crate::driver::lemma_filter_keeps_all(visible, begins_with(prefix));
}

/// Completing the same command line twice, with the same grammar and the same
/// profiles, gives the same completions: they depend on the content of the
/// grammar, of the tokens and of the profile names alone.
pub proof fn lemma_same_input_same_completions(
    root: Command,
    again_root: Command,
    arguments: Vec<String>,
    again_arguments: Vec<String>,
    profiles: Vec<Profile>,
    again_profiles: Vec<Profile>,
    first: Vec<String>,
    second: Vec<String>,
)
    requires
        root@ == again_root@,
        arguments.deep_view() == again_arguments.deep_view(),
        profiles.deep_view() == again_profiles.deep_view(),
        first.deep_view() == completions(root@, arguments.deep_view(), profiles.deep_view()),
        second.deep_view() == completions(
            again_root@,
            again_arguments.deep_view(),
            again_profiles.deep_view(),
        ),
    ensures
        first.deep_view() == second.deep_view(),
{
}

} // verus!
