//! Applying one search/replace block to a text: first by looking for the
//! search text as it stands, then by comparing lines without the white space
//! around them.

use crate::text::{
    append, append_each, concat_each, ends_with_char, find, find_index_from, from_chars,
    lemma_find_from, lines, lines_of, occurs_at, same_chars, slice_of, text_of_bytes, to_chars,
    trim, trim_chars, views,
};
use vstd::prelude::*;
use vstd::string::StrSliceExecFns;
use vstd::utf8::{encode_utf8, valid_utf8};

verus! {

/// Why a block could not be applied.
#[derive(Clone, Copy, Debug, PartialEq, Eq)]
pub enum PatchError {
    /// The search text does not occur as it stands and holds nothing but white space.
    EmptySearch,
    /// Neither the search text nor its lines, compared without surrounding
    /// white space, occur in the content.
    NotFound,
}

impl PatchError {
    /// The error in words.
    pub fn message(&self) -> (r: String)
        ensures
            r@ == match self {
                PatchError::EmptySearch => "Search block is empty or only whitespace"@,
                PatchError::NotFound => "Search block not found"@,
            },
    {
        match self {
            PatchError::EmptySearch => "Search block is empty or only whitespace".to_owned(),
            PatchError::NotFound => "Search block not found".to_owned(),
        }
    }
}

/// `s` with every carriage return that stands before a line feed left out.
pub open spec fn normalize_newlines(s: Seq<char>) -> Seq<char>
    decreases s.len(),
{
    if s.len() == 0 {
        seq![]
    } else if s.len() >= 2 && s[0] == '\r' && s[1] == '\n' {
        seq!['\n'] + normalize_newlines(s.skip(2))
    } else {
        seq![s[0]] + normalize_newlines(s.skip(1))
    }
}

/// Executable `normalize_newlines`.
pub fn normalize_chars(s: &Vec<char>) -> (r: Vec<char>)
    ensures
        r@ == normalize_newlines(s@),
{
    let mut out: Vec<char> = Vec::new();
    let mut i: usize = 0;
    assert(s@.skip(0) =~= s@);
    assert(out@ + normalize_newlines(s@) =~= normalize_newlines(s@));
    while i < s.len()
        invariant
            i <= s.len(),
            normalize_newlines(s@) == out@ + normalize_newlines(s@.skip(i as int)),
        decreases s.len() - i,
    {
        let ghost rest = s@.skip(i as int);
        let ghost before = out@;
        if s[i] == '\r' && i + 1 < s.len() && s[i + 1] == '\n' {
            out.push('\n');
            assert(rest.skip(2) =~= s@.skip(i + 2));
            assert(out@ + normalize_newlines(s@.skip(i + 2)) =~= before + (seq!['\n']
                + normalize_newlines(rest.skip(2))));
            i += 2;
        } else {
            out.push(s[i]);
            assert(rest.skip(1) =~= s@.skip(i + 1));
            assert(out@ + normalize_newlines(s@.skip(i + 1)) =~= before + (seq![rest[0]]
                + normalize_newlines(rest.skip(1))));
            i += 1;
        }
    }
    assert(out@ + normalize_newlines(s@.skip(s.len() as int)) =~= out@);
    out
}

/// `content` with its first occurrence of `search` replaced by `replace`.
pub open spec fn replace_first(content: Seq<char>, search: Seq<char>, replace: Seq<char>) -> Option<
    Seq<char>,
> {
    match find(content, search) {
        Some(i) => Some(content.take(i) + replace + content.skip(i + search.len())),
        None => None,
    }
}

/// Each line without the white space around it.
pub open spec fn trimmed_lines(ls: Seq<Seq<char>>) -> Seq<Seq<char>> {
    Seq::new(ls.len(), |i: int| trim(ls[i]))
}

/// The lines that the line-by-line comparison looks for: the lines of the
/// search text without the white space around it, each without the white
/// space around it.
pub open spec fn pattern_lines(search: Seq<char>) -> Seq<Seq<char>> {
    trimmed_lines(lines(trim(search)))
}

/// Whether the lines of `pattern` stand in `ls`, one for one, from line `i` on.
pub open spec fn window_at(ls: Seq<Seq<char>>, pattern: Seq<Seq<char>>, i: int) -> bool {
    0 <= i && i + pattern.len() <= ls.len() && ls.subrange(i, i + pattern.len()) =~= pattern
}

/// The first line, not before `from`, from which the lines of `pattern` stand in `ls`.
pub open spec fn first_window_from(
    ls: Seq<Seq<char>>,
    pattern: Seq<Seq<char>>,
    from: int,
) -> Option<int>
    decreases ls.len() - from,
{
    if from < 0 || from + pattern.len() > ls.len() {
        None
    } else if window_at(ls, pattern, from) {
        Some(from)
    } else {
        first_window_from(ls, pattern, from + 1)
    }
}

/// The first line from which the lines of `pattern` stand in `ls`.
pub open spec fn first_window(ls: Seq<Seq<char>>, pattern: Seq<Seq<char>>) -> Option<int> {
    first_window_from(ls, pattern, 0)
}

/// What `first_window_from` returns is the first window, and `None` means there is none.
pub proof fn lemma_first_window_from(ls: Seq<Seq<char>>, pattern: Seq<Seq<char>>, from: int)
    requires
        0 <= from,
    ensures
        match first_window_from(ls, pattern, from) {
            Some(i) => from <= i && window_at(ls, pattern, i) && forall|j: int|
                from <= j < i ==> !window_at(ls, pattern, j),
            None => forall|j: int| from <= j ==> !window_at(ls, pattern, j),
        },
    decreases ls.len() - from,
{
    if from + pattern.len() > ls.len() {
    } else if window_at(ls, pattern, from) {
    } else {
        lemma_first_window_from(ls, pattern, from + 1);
    }
}

/// The line feed, as a sequence of one character.
pub open spec fn newline() -> Seq<char> {
    seq!['\n']
}

/// `replace`, with a line feed behind it unless it ends in one.
pub open spec fn with_final_newline(replace: Seq<char>) -> Seq<char> {
    if ends_with_char(replace, '\n') {
        replace
    } else {
        replace + newline()
    }
}

/// The content in which `count` lines from line `at` on give way to `replace`:
/// the lines before, each with a line feed; `replace` as it is given, with
/// a line feed behind it unless it ends in one; the lines after, each with a
/// line feed.
pub open spec fn replace_lines(
    content_lines: Seq<Seq<char>>,
    at: int,
    count: int,
    replace: Seq<char>,
) -> Seq<char> {
    concat_each(content_lines.take(at), newline()) + with_final_newline(replace) + concat_each(
        content_lines.skip(at + count),
        newline(),
    )
}

/// What applying a block to a content gives. Line endings of content and
/// search text are normalized first. Where the search text then occurs as it
/// stands, its first occurrence is replaced and nothing else is tried. Else
/// the first run of content lines that equal the pattern lines, white space
/// around each line aside, gives way to the replacement.
pub open spec fn patched(content: Seq<char>, search: Seq<char>, replace: Seq<char>) -> Result<
    Seq<char>,
    PatchError,
> {
    let text = normalize_newlines(content);
    let wanted = normalize_newlines(search);
    match replace_first(text, wanted, replace) {
        Some(r) => Ok(r),
        None => {
            let pattern = pattern_lines(wanted);
            if pattern.len() == 0 {
                Err(PatchError::EmptySearch)
            } else {
                let content_lines = lines(text);
                match first_window(trimmed_lines(content_lines), pattern) {
                    Some(i) => Ok(replace_lines(content_lines, i, pattern.len() as int, replace)),
                    None => Err(PatchError::NotFound),
                }
            }
        },
    }
}

/// Each line of `ls` without the white space around it.
pub fn trim_each(ls: &Vec<Vec<char>>) -> (r: Vec<Vec<char>>)
    ensures
        views(r@) == trimmed_lines(views(ls@)),
{
    let mut out: Vec<Vec<char>> = Vec::new();
    let mut i: usize = 0;
    while i < ls.len()
        invariant
            i <= ls.len(),
            out.len() == i,
            forall|j: int| 0 <= j < i ==> (#[trigger] out@[j])@ == trim(ls@[j]@),
        decreases ls.len() - i,
    {
        out.push(trim_chars(&ls[i]));
        i += 1;
    }
    assert(views(out@) =~= trimmed_lines(views(ls@)));
    out
}

/// Executable `window_at`.
pub fn window_matches(ls: &Vec<Vec<char>>, pattern: &Vec<Vec<char>>, i: usize) -> (r: bool)
    ensures
        r == window_at(views(ls@), views(pattern@), i as int),
{
    if pattern.len() > ls.len() || i > ls.len() - pattern.len() {
        return false;
    }
    let ghost a = views(ls@);
    let ghost p = views(pattern@);
    let mut k: usize = 0;
    while k < pattern.len()
        invariant
            k <= pattern.len(),
            i + pattern.len() <= ls.len(),
            a == views(ls@),
            p == views(pattern@),
            a.subrange(i as int, i + k) =~= p.take(k as int),
        decreases pattern.len() - k,
    {
        assert(a[i + k] == ls@[i + k]@);
        assert(p[k as int] == pattern@[k as int]@);
        if !same_chars(&ls[i + k], &pattern[k]) {
            assert(a.subrange(i as int, i + pattern.len())[k as int] != p[k as int]);
            return false;
        }
        k += 1;
    }
    assert(p.take(pattern.len() as int) =~= p);
    true
}

/// Executable `first_window`.
pub fn find_window(ls: &Vec<Vec<char>>, pattern: &Vec<Vec<char>>) -> (r: Option<usize>)
    ensures
        match r {
            Some(i) => first_window(views(ls@), views(pattern@)) == Some(i as int) && i
                + pattern.len() <= ls.len(),
            None => first_window(views(ls@), views(pattern@)) is None,
        },
{
    if pattern.len() > ls.len() {
        return None;
    }
    let last: usize = ls.len() - pattern.len();
    let mut i: usize = 0;
    while i <= last
        invariant
            last == ls.len() - pattern.len(),
            first_window(views(ls@), views(pattern@)) == first_window_from(
                views(ls@),
                views(pattern@),
                i as int,
            ),
        decreases last + 1 - i,
    {
        if window_matches(ls, pattern, i) {
            return Some(i);
        }
        i += 1;
    }
    None
}

/// Applies one search/replace block to a content, on characters.
pub fn apply_patch_chars(content: &Vec<char>, search: &Vec<char>, replace: &Vec<char>) -> (r:
    Result<Vec<char>, PatchError>)
    ensures
        match r {
            Ok(text) => patched(content@, search@, replace@) == Ok::<Seq<char>, PatchError>(text@),
            Err(e) => patched(content@, search@, replace@) == Err::<Seq<char>, PatchError>(e),
        },
{
    let text = normalize_chars(content);
    let wanted = normalize_chars(search);
    if let Some(i) = find_index_from(&text, &wanted, 0) {
        let mut out = slice_of(&text, 0, i);
        let tail = slice_of(&text, i + wanted.len(), text.len());
        append(&mut out, replace);
        append(&mut out, &tail);
        assert(out@ =~= text@.take(i as int) + replace@ + text@.skip(i + wanted.len()));
        return Ok(out);
    }
    let pattern = trim_each(&lines_of(&trim_chars(&wanted)));
    if pattern.len() == 0 {
        return Err(PatchError::EmptySearch);
    }
    let content_lines = lines_of(&text);
    let trimmed = trim_each(&content_lines);
    match find_window(&trimmed, &pattern) {
        Some(i) => {
            let end: Vec<char> = vec!['\n'];
            assert(end@ =~= newline());
            let ghost cl = views(content_lines@);
            let mut out: Vec<char> = Vec::new();
            assert(cl.subrange(0, i as int) =~= cl.take(i as int));
            append_each(&mut out, &content_lines, 0, i, &end);
            assert(out@ =~= concat_each(cl.take(i as int), newline()));
            append(&mut out, replace);
            let n: usize = replace.len();
            if !(n > 0 && replace[n - 1] == '\n') {
                out.push('\n');
            }
            let ghost middle = out@;
            assert(middle =~= concat_each(cl.take(i as int), newline()) + with_final_newline(
                replace@,
            ));
            assert(cl.subrange(i + pattern.len(), content_lines.len() as int) =~= cl.skip(
                i + pattern.len(),
            ));
            assert(trimmed@.len() == content_lines@.len());
            append_each(&mut out, &content_lines, i + pattern.len(), content_lines.len(), &end);
            assert(out@ == replace_lines(cl, i as int, pattern.len() as int, replace@));
            Ok(out)
        },
        None => Err(PatchError::NotFound),
    }
}

/// Applies one search/replace block to a content. The result is the new
/// content, or the reason why the block does not apply.
pub fn apply_patch(content: &str, search: &str, replace: &str) -> (r: Result<String, PatchError>)
    ensures
        match r {
            Ok(text) => patched(content@, search@, replace@) == Ok::<Seq<char>, PatchError>(text@),
            Err(e) => patched(content@, search@, replace@) == Err::<Seq<char>, PatchError>(e),
        },
{
    let c = to_chars(content);
    let s = to_chars(search);
    let p = to_chars(replace);
    match apply_patch_chars(&c, &s, &p) {
        Ok(text) => Ok(from_chars(&text)),
        Err(e) => Err(e),
    }
}

/// The search text as it stands has precedence: where it occurs anywhere in
/// the content, line endings normalized, the result is the content with the
/// first occurrence replaced, and lines are never compared.
pub proof fn law_exact_match_first(
    content: Seq<char>,
    search: Seq<char>,
    replace: Seq<char>,
    at: int,
)
    requires
        occurs_at(normalize_newlines(content), normalize_newlines(search), at),
    ensures
        find(normalize_newlines(content), normalize_newlines(search)) matches Some(first) && first
            <= at && patched(content, search, replace) == Ok::<Seq<char>, PatchError>(
            normalize_newlines(content).take(first) + replace + normalize_newlines(content).skip(
                first + normalize_newlines(search).len(),
            ),
        ),
{
    lemma_find_from(normalize_newlines(content), normalize_newlines(search), 0);
}

/// Lines are compared only where the search text does not occur as it
/// stands, and the first run of lines that fits is the one that gives way: a
/// result of the line comparison means that the search text occurs nowhere
/// and that no earlier run of lines fits.
pub proof fn law_first_window_gives_way(content: Seq<char>, search: Seq<char>, replace: Seq<char>)
    requires
        find(normalize_newlines(content), normalize_newlines(search)) is None,
    ensures
        forall|at: int| !occurs_at(normalize_newlines(content), normalize_newlines(search), at),
        patched(content, search, replace) matches Ok(text) ==> first_window(
            trimmed_lines(lines(normalize_newlines(content))),
            pattern_lines(normalize_newlines(search)),
        ) matches Some(i) && text == replace_lines(
            lines(normalize_newlines(content)),
            i,
            pattern_lines(normalize_newlines(search)).len() as int,
            replace,
        ) && forall|j: int|
            0 <= j < i ==> !window_at(
                trimmed_lines(lines(normalize_newlines(content))),
                pattern_lines(normalize_newlines(search)),
                j,
            ),
        patched(content, search, replace) == Err::<Seq<char>, PatchError>(PatchError::NotFound)
            ==> forall|j: int|
            !window_at(
                trimmed_lines(lines(normalize_newlines(content))),
                pattern_lines(normalize_newlines(search)),
                j,
            ),
{
    lemma_find_from(normalize_newlines(content), normalize_newlines(search), 0);
    lemma_first_window_from(
        trimmed_lines(lines(normalize_newlines(content))),
        pattern_lines(normalize_newlines(search)),
        0,
    );
}

/// A parsed unified diff of the crate `diffy`.
#[verifier::external_type_specification]
#[verifier::external_body]
#[verifier::reject_recursive_types(T)]
pub struct ExPatch<'a, T: ToOwned + ?Sized>(diffy::Patch<'a, T>);

/// The error of `diffy::Patch::from_str`.
#[verifier::external_type_specification]
#[verifier::external_body]
pub struct ExParsePatchError(diffy::ParsePatchError);

/// The error of `diffy::apply`.
#[verifier::external_type_specification]
#[verifier::external_body]
pub struct ExApplyError(diffy::ApplyError);

/// Whether `diffy::Patch::from_str` reads the given text as a unified diff.
pub uninterp spec fn is_unified_diff(text: Seq<char>) -> bool;

/// `diffy::Patch::from_str`: the parsed diff, or the error where the text is
/// no unified diff.
#[verifier::external_body]
fn parse_unified_diff<'a>(text: &'a str) -> (r: Result<
    diffy::Patch<'a, str>,
    diffy::ParsePatchError,
>)
    ensures
        r is Ok <==> is_unified_diff(text@),
{
    diffy::Patch::from_str(text)
}

/// `diffy::apply`: the base text with the hunks of the diff applied, or the
/// error where a hunk finds no place.
#[verifier::external_body]
fn apply_unified_diff(base: &str, patch: &diffy::Patch<'_, str>) -> (r: Result<
    String,
    diffy::ApplyError,
>) {
    diffy::apply(base, patch)
}

/// Why a unified diff could not be applied to a content.
#[derive(Clone, Copy, Debug, PartialEq, Eq)]
pub enum ContentPatchError {
    /// The content is not valid UTF-8.
    InvalidContent,
    /// The patch text is no unified diff.
    MalformedPatch,
    /// A hunk of the diff finds no place in the content.
    HunkFailed,
}

/// What is handed back for each outcome of applying a diff: the bytes of the
/// new text, or the error for a hunk that found no place.
pub fn patched_content(outcome: Result<String, diffy::ApplyError>) -> (r: Result<
    Vec<u8>,
    ContentPatchError,
>)
    ensures
        match outcome {
            Ok(text) => r matches Ok(bytes) && bytes@ == encode_utf8(text@) && valid_utf8(bytes@),
            Err(_) => r == Err::<Vec<u8>, ContentPatchError>(ContentPatchError::HunkFailed),
        },
{
    match outcome {
        Ok(text) => {
            proof {
                vstd::utf8::encode_utf8_valid_utf8(text@);
            }
            Ok(text.as_str().as_bytes_vec())
        },
        Err(_) => Err(ContentPatchError::HunkFailed),
    }
}

/// Applies a unified diff to the bytes of a file. Content that is not valid
/// UTF-8 and a patch text that is no unified diff are refused, in this order;
/// else the outcome is that of applying the diff to the text of the content.
pub fn apply_patch_to_content(content: &[u8], patch_str: &str) -> (r: Result<
    Vec<u8>,
    ContentPatchError,
>)
    ensures
        !valid_utf8(content@) <==> r == Err::<Vec<u8>, ContentPatchError>(
            ContentPatchError::InvalidContent,
        ),
        valid_utf8(content@) && !is_unified_diff(patch_str@) <==> r == Err::<
            Vec<u8>,
            ContentPatchError,
        >(ContentPatchError::MalformedPatch),
        r matches Ok(bytes) ==> valid_utf8(bytes@),
{
    let text = match text_of_bytes(content) {
        Some(text) => text,
        None => {
            return Err(ContentPatchError::InvalidContent);
        },
    };
    let patch = match parse_unified_diff(patch_str) {
        Ok(patch) => patch,
        Err(_) => {
            return Err(ContentPatchError::MalformedPatch);
        },
    };
    patched_content(apply_unified_diff(text, &patch))
}

} // verus!
