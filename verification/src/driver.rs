//! From the command line to its completions: the descent through the grammar,
//! the candidates of the command reached, and the two filters.

use crate::model::{
    begins_with, completions, descend, descend_from, hidden_marker, is_hidden, shown,
    typed_prefix,
};
use crate::structures::{Command, Profile, Text};
use crate::text::starts_with;
use vstd::prelude::*;

verus! {

/// A filter keeps a sequence whose items all pass.
pub proof fn lemma_filter_keeps_all(items: Seq<Text>, test: spec_fn(Text) -> bool)
    requires
        forall|i: int| 0 <= i < items.len() ==> test(#[trigger] items[i]),
    ensures
        items.filter(test) == items,
    decreases items.len(),
{
    reveal(Seq::filter);
    if items.len() > 0 {
        lemma_filter_keeps_all(items.drop_last(), test);
        assert(items.drop_last().push(items.last()) =~= items);
    }
}

/// Filtering one item more: the item is appended if it passes.
proof fn lemma_filter_step(items: Seq<Text>, test: spec_fn(Text) -> bool, i: int)
    requires
        0 <= i < items.len(),
    ensures
        items.take(i + 1).filter(test) == if test(items[i]) {
            items.take(i).filter(test).push(items[i])
        } else {
            items.take(i).filter(test)
        },
{
    reveal(Seq::filter);
    assert(items.take(i + 1).drop_last() =~= items.take(i));
}

/// Where `command`'s own arguments end in `arguments`: the position of the first
/// token that is called like a subcommand of `command`, or the number of tokens
/// where there is none. The arguments of each option on the way are passed over.
pub fn context_end(command: &Command, arguments: &[String]) -> (end: usize)
    ensures
        end == command@.context_end(arguments.deep_view()),
        end <= arguments@.len(),
        end < arguments@.len() ==> command@.subcommand_index(
            arguments.deep_view()[end as int],
        ) is Some,
{
    let ghost tokens = arguments.deep_view();
    proof {
        command.lemma_view();
    }
    let mut i: usize = 0;
    while i < arguments.len()
        invariant
            tokens == arguments.deep_view(),
            command@.options == command.options.deep_view(),
            i <= tokens.len(),
            command@.boundary_from(tokens, i as int) == command@.context_end(tokens),
        decreases tokens.len() - i,
    {
        if command.subcommand_index(arguments[i].as_str()).is_some() {
            return i;
        }
        match command.option_index(arguments[i].as_str()) {
            Some(k) => {
                let mut next: usize = i + 1;
                let _ = command.options[k].consume_args(command, arguments, &mut next);
                i = next;
            },
            None => {
                i += 1;
            },
        }
    }
    i
}

/// The deepest command that the command line leads to from `root`, and the
/// position where that command's own tokens begin.
///
/// From the root on, and after passing over empty tokens, the tokens are scanned
/// for the first subcommand of the command reached so far. Found behind at least
/// one other token, that subcommand is the next command.
pub fn descend_into<'a>(arguments: &[String], root: &'a Command) -> (r: (&'a Command, usize))
    ensures
        (r.0@, r.1 as int) == descend(root@, arguments.deep_view()),
        r.1 <= arguments@.len(),
{
    let ghost tokens = arguments.deep_view();
    let mut context: &Command = root;
    let mut start: usize = 0;
    let mut position: usize = 0;
    let mut done = false;
    while !done && position < arguments.len()
        invariant
            tokens == arguments.deep_view(),
            start <= tokens.len(),
            done ==> (context@, start as int) == descend(root@, tokens),
            !done ==> descend_from(context@, start as int, position as int, tokens) == descend(
                root@,
                tokens,
            ),
        decreases tokens.len() - position + if done { 0int } else { 1int },
    {
        if arguments[position].as_str().is_empty() {
            position += 1;
        } else {
            let window = &arguments[position..arguments.len()];
            assert(window.deep_view() =~= tokens.skip(position as int));
            let skip = context_end(context, window);
            if 0 < skip && skip < arguments.len() - position {
                match context.subcommand_index(arguments[position + skip].as_str()) {
                    Some(k) => {
                        proof {
                            context.lemma_view();
                        }
                        context = &context.subcommands[k];
                        position = position + skip;
                        start = position;
                    },
                    None => {
                        done = true;
                    },
                }
            } else {
                done = true;
            }
        }
    }
    (context, start)
}

/// The candidates that are not hidden, in their order.
pub fn without_hidden(candidates: &Vec<String>) -> (r: Vec<String>)
    ensures
        r.deep_view() == candidates.deep_view().filter(shown()),
        forall|i: int| 0 <= i < r@.len() ==> !is_hidden(#[trigger] r.deep_view()[i]),
{
    let ghost all = candidates.deep_view();
    let mut kept: Vec<String> = Vec::new();
    assert(kept.deep_view() =~= Seq::<Text>::empty());
    assert(all.take(0).filter(shown()) =~= Seq::<Text>::empty()) by {
        reveal(Seq::filter);
    }
    let mut i: usize = 0;
    while i < candidates.len()
        invariant
            all == candidates.deep_view(),
            i <= all.len(),
            kept.deep_view() == all.take(i as int).filter(shown()),
            forall|k: int| 0 <= k < kept@.len() ==> !is_hidden(#[trigger] kept.deep_view()[k]),
        decreases all.len() - i,
    {
        proof {
            reveal_strlit("__");
            lemma_filter_step(all, shown(), i as int);
        }
        assert("__"@ =~= hidden_marker());
        if !starts_with(candidates[i].as_str(), "__") {
            let ghost before = kept.deep_view();
            kept.push(candidates[i].clone());
            assert(kept.deep_view() =~= before.push(all[i as int]));
        }
        i += 1;
    }
    assert(all.take(i as int) =~= all);
    kept
}

/// The candidates that begin with `prefix`, in their order. An empty prefix keeps
/// them all.
pub fn with_prefix(candidates: &Vec<String>, prefix: &str) -> (r: Vec<String>)
    ensures
        r.deep_view() == candidates.deep_view().filter(begins_with(prefix@)),
        forall|i: int| 0 <= i < r@.len() ==> prefix@.is_prefix_of(#[trigger] r.deep_view()[i]),
        prefix@.len() == 0 ==> r.deep_view() == candidates.deep_view(),
{
    let ghost all = candidates.deep_view();
    let mut kept: Vec<String> = Vec::new();
    assert(kept.deep_view() =~= Seq::<Text>::empty());
    assert(all.take(0).filter(begins_with(prefix@)) =~= Seq::<Text>::empty()) by {
        reveal(Seq::filter);
    }
    let mut i: usize = 0;
    while i < candidates.len()
        invariant
            all == candidates.deep_view(),
            i <= all.len(),
            kept.deep_view() == all.take(i as int).filter(begins_with(prefix@)),
            forall|k: int|
                0 <= k < kept@.len() ==> prefix@.is_prefix_of(#[trigger] kept.deep_view()[k]),
        decreases all.len() - i,
    {
        proof {
            lemma_filter_step(all, begins_with(prefix@), i as int);
        }
        if starts_with(candidates[i].as_str(), prefix) {
            let ghost before = kept.deep_view();
            kept.push(candidates[i].clone());
            assert(kept.deep_view() =~= before.push(all[i as int]));
        }
        i += 1;
    }
    assert(all.take(i as int) =~= all);
    proof {
        if prefix@.len() == 0 {
            assert forall|k: int| 0 <= k < all.len() implies begins_with(prefix@)(
                #[trigger] all[k],
            ) by {
                assert(all[k].subrange(0, 0) =~= prefix@);
            }
            lemma_filter_keeps_all(all, begins_with(prefix@));
        }
    }
    kept
}

/// The completions of a command line, given the grammar and the profiles: the
/// candidates of the deepest command that the tokens lead to, without the hidden
/// ones, and of those the ones that begin with the last token.
pub fn routine(arguments: &Vec<String>, root: &Command, profiles: &Vec<Profile>) -> (r: Vec<
    String,
>)
    ensures
        r.deep_view() == completions(root@, arguments.deep_view(), profiles.deep_view()),
        forall|i: int| 0 <= i < r@.len() ==> !is_hidden(#[trigger] r.deep_view()[i]),
        forall|i: int|
            0 <= i < r@.len() ==> typed_prefix(arguments.deep_view()).is_prefix_of(
                #[trigger] r.deep_view()[i],
            ),
{
    let ghost tokens = arguments.deep_view();
    let line = arguments.as_slice();
    let (context, start) = descend_into(line, root);
    let window = &line[start..line.len()];
    assert(window.deep_view() =~= tokens.skip(start as int));
    let candidates = context.candidates(window, profiles);
    let visible = without_hidden(&candidates);
    let last_token: &str = if arguments.len() > 0 {
        arguments[arguments.len() - 1].as_str()
    } else {
        ""
    };
    proof {
        reveal_strlit("");
        assert(last_token@ =~= typed_prefix(tokens));
    }
    let r = with_prefix(&visible, last_token);
    proof {
        broadcast use vstd::seq_lib::group_filter_ensures;
        assert forall|i: int| 0 <= i < r@.len() implies !is_hidden(#[trigger] r.deep_view()[i]) by {
            let kept = visible.deep_view().filter(begins_with(last_token@));
            visible.deep_view().lemma_filter_contains_rev(begins_with(last_token@), kept[i]);
        }
    }
    r
}

} // verus!
