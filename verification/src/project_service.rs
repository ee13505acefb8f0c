//! The order in which the entries of a directory are shown.

use crate::file_search_service::{lowercase, to_lowercase};
use crate::text::to_chars;
use crate::types::FileNode;
use vstd::prelude::*;

verus! {

/// Whether `a` comes before `b` in the order of the dictionary, character by
/// character: the order in which the standard library puts two strings.
pub open spec fn lex_less(a: Seq<char>, b: Seq<char>) -> bool
    decreases a.len(),
{
    if b.len() == 0 {
        false
    } else if a.len() == 0 {
        true
    } else if a[0] != b[0] {
        (a[0] as u32) < (b[0] as u32)
    } else {
        lex_less(a.drop_first(), b.drop_first())
    }
}

/// Executable `lex_less`.
pub fn text_less(a: &str, b: &str) -> (r: bool)
    ensures
        r == lex_less(a@, b@),
{
    let x = to_chars(a);
    let y = to_chars(b);
    let mut i: usize = 0;
    assert(x@.skip(0) =~= x@ && y@.skip(0) =~= y@);
    while i < x.len() && i < y.len()
        invariant
            i <= x.len(),
            i <= y.len(),
            x@ == a@,
            y@ == b@,
            lex_less(a@, b@) == lex_less(x@.skip(i as int), y@.skip(i as int)),
        decreases x.len() - i,
    {
        assert(x@.skip(i as int).drop_first() =~= x@.skip(i + 1));
        assert(y@.skip(i as int).drop_first() =~= y@.skip(i + 1));
        if x[i] != y[i] {
            return (x[i] as u32) < (y[i] as u32);
        }
        i += 1;
    }
    i < y.len()
}

/// Whether an entry is shown before another: a directory before a file, and
/// of two directories or two files the one whose name in lower case comes
/// first.
pub open spec fn shown_before(
    a_is_directory: bool,
    a_name: Seq<char>,
    b_is_directory: bool,
    b_name: Seq<char>,
) -> bool {
    if a_is_directory != b_is_directory {
        a_is_directory
    } else {
        lex_less(lowercase(a_name), lowercase(b_name))
    }
}

/// Whether `a` is shown before `b` among the children of a directory.
pub fn node_precedes(a: &FileNode, b: &FileNode) -> (r: bool)
    ensures
        r == shown_before(a.is_directory, a.name@, b.is_directory, b.name@),
{
    if a.is_directory != b.is_directory {
        a.is_directory
    } else {
        let x = to_lowercase(a.name.as_str());
        let y = to_lowercase(b.name.as_str());
        text_less(x.as_str(), y.as_str())
    }
}

} // verus!
