//! Paths as the front end sees them: relative to the project, with forward
//! slashes.

use crate::text::{append, from_chars, to_chars};
use vstd::prelude::*;

verus! {

/// A character of a path, with the backslash turned into a slash.
pub open spec fn slash_of(c: char) -> char {
    if c == '\\' {
        '/'
    } else {
        c
    }
}

/// A path with every backslash turned into a slash.
pub open spec fn with_slashes(path: Seq<char>) -> Seq<char> {
    Seq::new(path.len(), |i: int| slash_of(path[i]))
}

/// Writes a path with forward slashes only.
pub fn normalize_path_str(path: &str) -> (r: String)
    ensures
        r@ == with_slashes(path@),
{
    let chars = to_chars(path);
    let mut out: Vec<char> = Vec::new();
    let mut i: usize = 0;
    while i < chars.len()
        invariant
            i <= chars.len(),
            out.len() == i,
            forall|j: int| 0 <= j < i ==> out@[j] == slash_of(chars@[j]),
        decreases chars.len() - i,
    {
        if chars[i] == '\\' {
            out.push('/');
        } else {
            out.push(chars[i]);
        }
        i += 1;
    }
    assert(out@ =~= with_slashes(path@));
    from_chars(&out)
}

/// `Path::strip_prefix` of the standard library, on paths given as text: the
/// rest of `full_path` behind `root_path`, or `None` where `full_path` does
/// not lie under `root_path`. How a path falls into components depends on
/// the platform, so nothing is stated of the result.
#[verifier::external_body]
fn strip_path_prefix(full_path: &str, root_path: &str) -> (r: Option<String>) {
    match std::path::Path::new(full_path).strip_prefix(std::path::Path::new(root_path)) {
        Ok(rest) => Some(rest.to_string_lossy().into_owned()),
        Err(_) => None,
    }
}

/// A path that does not lie under the root it was to be made relative to.
#[derive(Debug, Clone, PartialEq, Eq)]
pub struct NotUnderRoot {
    pub full_path: String,
    pub root_path: String,
}

impl NotUnderRoot {
    /// The error in words.
    pub fn message(&self) -> (r: String)
        ensures
            r@ == "Failed to strip prefix '"@ + self.root_path@ + "' from '"@ + self.full_path@
                + "'"@,
    {
        let mut out = to_chars("Failed to strip prefix '");
        append(&mut out, &to_chars(self.root_path.as_str()));
        append(&mut out, &to_chars("' from '"));
        append(&mut out, &to_chars(self.full_path.as_str()));
        append(&mut out, &to_chars("'"));
        from_chars(&out)
    }
}

/// What is handed back for each outcome of taking the root off a path: the
/// rest with forward slashes, or the error that names both paths.
pub fn relative_path_of(stripped: Option<String>, full_path: &str, root_path: &str) -> (r: Result<
    String,
    NotUnderRoot,
>)
    ensures
        match stripped {
            Some(rest) => r matches Ok(text) && text@ == with_slashes(rest@),
            None => r matches Err(e) && e.full_path@ == full_path@ && e.root_path@ == root_path@,
        },
{
    match stripped {
        Some(rest) => Ok(normalize_path_str(rest.as_str())),
        None => Err(
            NotUnderRoot { full_path: full_path.to_owned(), root_path: root_path.to_owned() },
        ),
    }
}

/// The path of a file relative to the root of its project, with forward
/// slashes. A path that does not lie under the root is an error.
pub fn get_relative_path(full_path: &str, root_path: &str) -> (r: Result<String, NotUnderRoot>)
    ensures
        match r {
            Ok(text) => !text@.contains('\\'),
            Err(e) => e.full_path@ == full_path@ && e.root_path@ == root_path@,
        },
{
    let r = relative_path_of(strip_path_prefix(full_path, root_path), full_path, root_path);
    proof {
        if r is Ok {
            let text = r->Ok_0@;
            assert forall|i: int| 0 <= i < text.len() implies text[i] != '\\' by {}
        }
    }
    r
}

} // verus!
