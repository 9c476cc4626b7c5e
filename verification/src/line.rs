//! From the raw line to its tokens.

use crate::structures::Text;
use vstd::prelude::*;

verus! {

/// The words that `shlex::split` finds in a line, by the quoting rules of the
/// POSIX shell; `None` where the line ends inside a quotation or behind a
/// backslash.
pub uninterp spec fn shell_words(line: Seq<char>) -> Option<Seq<Seq<char>>>;

/// Whether a character separates words: a space, a tab or a newline.
pub open spec fn is_blank(c: char) -> bool {
    c == ' ' || c == '\t' || c == '\n'
}

/// Whether the line ends with a character that separates words, so that the
/// cursor stands at the start of a new token.
pub open spec fn ends_blank(line: Seq<char>) -> bool {
    line.len() > 0 && is_blank(line.last())
}

/// The tokens of a line whose words are `words`: the words, and behind them an
/// empty token where the line ends with a blank.
pub open spec fn tokens_of(words: Seq<Text>, line: Seq<char>) -> Seq<Text> {
    if ends_blank(line) {
        words.push(Seq::empty())
    } else {
        words
    }
}

/// `shlex::split`: the words of the line, which depend on the line alone.
#[verifier::external_body]
fn split(line: &str) -> (words: Option<Vec<String>>)
    ensures
        words.deep_view() == shell_words(line@),
{
    shlex::split(line)
}

/// The tokens of a line, given its words: an empty token is added behind the
/// words where the line ends with a blank.
pub fn close_line(words: Vec<String>, line: &str) -> (tokens: Vec<String>)
    ensures
        tokens.deep_view() == tokens_of(words.deep_view(), line@),
{
    let mut tokens = words;
    let n = line.unicode_len();
    if n > 0 {
        let last = line.get_char(n - 1);
        if last == ' ' || last == '\t' || last == '\n' {
            let ghost before = tokens.deep_view();
            tokens.push(String::new());
            assert(tokens.deep_view() =~= before.push(Seq::empty()));
        }
    }
    tokens
}

/// The tokens of a raw line: its words by the quoting rules of the shell, and an
/// empty token behind them where the line ends with a blank. `None` where the
/// line cannot be split into words.
pub fn command_line(line: &str) -> (tokens: Option<Vec<String>>)
    ensures
        tokens.deep_view() == match shell_words(line@) {
            Some(words) => Some(tokens_of(words, line@)),
            None => None,
        },
{
    match split(line) {
        Some(words) => Some(close_line(words, line)),
        None => None,
    }
}

} // verus!
