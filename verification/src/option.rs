//! How an option takes its arguments from the command line.

use crate::model::{is_complete, nonempty_run};
use crate::structures::{ArgumentCount, Command, Option_, Text};
use vstd::prelude::*;

verus! {

/// A run of non-empty tokens ends before the first empty token: it is no longer
/// than the distance to it.
pub proof fn lemma_run_stops_at_empty(tokens: Seq<Text>, from: int, limit: int, empty: int)
    requires
        0 <= from <= empty < tokens.len(),
        tokens[empty].len() == 0,
    ensures
        nonempty_run(tokens, from, limit) <= empty - from,
    decreases empty - from,
{
    if limit > 0 && tokens[from].len() != 0 {
        lemma_run_stops_at_empty(tokens, from + 1, limit - 1, empty);
    }
}

/// The tokens from `from` up to `to`, or none where `from` lies behind the tokens.
spec fn taken_so_far(tokens: Seq<Text>, from: int, to: int) -> Seq<Text> {
    if 0 <= from <= tokens.len() {
        tokens.subrange(from, to)
    } else {
        Seq::empty()
    }
}

/// Whether a token stands at `position` and is not empty.
fn nonempty_at(command_line: &[String], position: usize) -> (r: bool)
    ensures
        r == (position < command_line@.len() && command_line.deep_view()[position as int].len()
            > 0),
{
    position < command_line.len() && !command_line[position].as_str().is_empty()
}

impl Command {
    /// Whether a token stands at `position` and names no option of this command.
    fn plain_at(&self, command_line: &[String], position: usize) -> (r: bool)
        ensures
            r == (position < command_line@.len() && self@.option_index(
                command_line.deep_view()[position as int],
            ) is None),
    {
        position < command_line.len() && self.option_index(command_line[position].as_str()).is_none()
    }
}

impl Option_ {
    /// Whether none of the tokens that the option asks for is empty, where
    /// `position` is the position behind the option's name.
    pub fn complete(&self, command_line: &[String], position: usize) -> (r: bool)
        ensures
            r == is_complete(self.arguments, command_line.deep_view(), position as int),
    {
        match self.arguments {
            ArgumentCount::Fixed(size) => {
                let ghost tokens = command_line.deep_view();
                let mut at: usize = position;
                let mut seen: u64 = 0;
                while seen < size && at < command_line.len()
                    invariant
                        self.arguments == ArgumentCount::Fixed(size),
                        tokens == command_line.deep_view(),
                        at == position + seen,
                        seen <= size,
                        forall|i: int|
                            position <= i < at && i < tokens.len() ==> (#[trigger] tokens[i]).len()
                                > 0,
                    decreases size - seen,
                {
                    if command_line[at].as_str().is_empty() {
                        assert(tokens[at as int].len() == 0);
                        return false;
                    }
                    at += 1;
                    seen += 1;
                }
                true
            },
            _ => true,
        }
    }

    /// Takes the option's arguments from the command line, where `position` is the
    /// position behind the option's name, and moves `position` behind the arguments
    /// taken: no other token is taken from the line. `parent` is the command that
    /// the option belongs to.
    ///
    /// A fixed arity that meets an empty token among the tokens it asks for takes
    /// fewer tokens than its number.
    pub fn consume_args(
        &self,
        parent: &Command,
        command_line: &[String],
        position: &mut usize,
    ) -> (args: Vec<String>)
        ensures
            args.deep_view() == parent@.consumed(
                self.arguments,
                command_line.deep_view(),
                *old(position) as int,
            ),
            *final(position) == parent@.resume(
                self.arguments,
                command_line.deep_view(),
                *old(position) as int,
            ),
            *final(position) == *old(position) + args@.len(),
            *old(position) <= command_line@.len() ==> *final(position) <= command_line@.len(),
            self.arguments matches ArgumentCount::Fixed(n) ==> forall|i: int|
                *old(position) <= i < *old(position) + n && i < command_line@.len() && (
                #[trigger] command_line.deep_view()[i]).len() == 0 ==> args@.len() < n,
    {
        let ghost tokens = command_line.deep_view();
        let start: usize = *position;
        let mut at: usize = start;
        let mut args: Vec<String> = Vec::new();
        assert(args.deep_view() =~= Seq::<Text>::empty());
        match self.arguments {
            ArgumentCount::Fixed(size) => {
                let mut count: u64 = 0;
                while count < size && nonempty_at(command_line, at)
                    invariant
                        tokens == command_line.deep_view(),
                        at == start + count,
                        count <= size,
                        count > 0 ==> at <= tokens.len(),
                        nonempty_run(tokens, start as int, size as int) == count + nonempty_run(
                            tokens,
                            at as int,
                            size - count,
                        ),
                        args.deep_view() == taken_so_far(tokens, start as int, at as int),
                    decreases size - count,
                {
                    let ghost before = args.deep_view();
                    args.push(command_line[at].clone());
                    assert(args.deep_view() =~= before.push(tokens[at as int]));
                    at += 1;
                    count += 1;
                }
                assert forall|i: int|
                    start <= i < start + size && i < tokens.len() && (#[trigger] tokens[i]).len()
                        == 0 implies count < size by {
                    lemma_run_stops_at_empty(tokens, start as int, size as int, i);
                }
            },
            ArgumentCount::AtMostOne() => {
                if at < command_line.len() && parent.option_index(
                    command_line[at].as_str(),
                ).is_some() {
                    args.push(command_line[at].clone());
                    assert(args.deep_view() =~= tokens.subrange(start as int, start as int + 1));
                    at += 1;
                }
            },
            _ => {
                while parent.plain_at(command_line, at)
                    invariant
                        tokens == command_line.deep_view(),
                        start <= at,
                        at > start ==> at <= tokens.len(),
                        parent@.argument_run(tokens, start as int) == (at - start)
                            + parent@.argument_run(tokens, at as int),
                        args.deep_view() == taken_so_far(tokens, start as int, at as int),
                    decreases tokens.len() - at,
                {
                    let ghost before = args.deep_view();
                    args.push(command_line[at].clone());
                    assert(args.deep_view() =~= before.push(tokens[at as int]));
                    at += 1;
                }
            },
        }
        *position = at;
        args
    }
}

} // verus!
