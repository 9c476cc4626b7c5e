//! Small operations on strings and lists of strings.

use crate::structures::Text;
use vstd::prelude::*;

verus! {

/// Whether `text` begins with `prefix`.
pub fn starts_with(text: &str, prefix: &str) -> (r: bool)
    ensures
        r == prefix@.is_prefix_of(text@),
{
    let n = prefix.unicode_len();
    if n > text.unicode_len() {
        return false;
    }
    let mut i: usize = 0;
    while i < n
        invariant
            i <= n,
            n == prefix@.len(),
            n <= text@.len(),
            forall|k: int| 0 <= k < i ==> text@[k] == prefix@[k],
        decreases n - i,
    {
        if text.get_char(i) != prefix.get_char(i) {
            return false;
        }
        i += 1;
    }
    assert(text@.subrange(0, n as int) =~= prefix@);
    true
}

/// Appends a copy of each string of `source` to `target`.
pub fn extend_with(target: &mut Vec<String>, source: &Vec<String>)
    ensures
        final(target).deep_view() == old(target).deep_view() + source.deep_view(),
{
    let mut i: usize = 0;
    while i < source.len()
        invariant
            i <= source@.len(),
            target.deep_view() == old(target).deep_view() + source.deep_view().take(i as int),
        decreases source@.len() - i,
    {
        let ghost before = target.deep_view();
        target.push(source[i].clone());
        assert(target.deep_view() =~= before.push(source.deep_view()[i as int]));
        assert(source.deep_view().take(i as int + 1) =~= source.deep_view().take(i as int).push(
            source.deep_view()[i as int],
        ));
        i += 1;
    }
    assert(source.deep_view().take(i as int) =~= source.deep_view());
}

/// A copy of a list of strings.
pub fn duplicate(source: &Vec<String>) -> (r: Vec<String>)
    ensures
        r.deep_view() == source.deep_view(),
{
    let mut r: Vec<String> = Vec::new();
    assert(r.deep_view() =~= Seq::<Text>::empty());
    extend_with(&mut r, source);
    r
}

} // verus!
