//! The score of the file search: how well a name or a path fits a query.

use crate::text::{
    find, find_index_from, lemma_find_from, match_at, same_chars, starts_with, to_chars,
};
use vstd::prelude::*;

verus! {

/// The longest text that a scan takes: up to this length the score fits its type.
pub const MAX_SCANNED: usize = 32768;

/// The most bytes of a text that is scored.
pub const MAX_TEXT_BYTES: usize = 131072;

/// The characters that part the words of a path or a file name.
pub open spec fn is_word_separator(c: char) -> bool {
    c == '/' || c == '_' || c == '-' || c == '.'
}

/// Whether a word begins at index `i` of `text`.
pub open spec fn at_word_start(text: Seq<char>, i: int) -> bool {
    i == 0 || is_word_separator(text[i - 1])
}

/// Where a scan stands after some characters of the text.
pub struct Tally {
    /// How many characters of the query were found, in order.
    pub matched: nat,
    /// The points given so far.
    pub score: int,
    /// How many characters of the text in a row, up to the last one, were
    /// matches.
    pub run: nat,
    /// The index in the text of the first match.
    pub first_match: Option<nat>,
}

/// The tally after the character at index `i` of the text. While characters
/// of the query are left, a character that equals the next of them is a match:
/// it gives three points for each match of the run that it extends, itself
/// included, and fifteen more where a word begins with it. A character that
/// is no match ends the run.
pub open spec fn tally_step(query: Seq<char>, text: Seq<char>, st: Tally, i: int) -> Tally {
    if st.matched >= query.len() {
        st
    } else if query[st.matched as int] == text[i] {
        Tally {
            matched: st.matched + 1,
            score: st.score + 3 * (st.run + 1) + if at_word_start(text, i) {
                15int
            } else {
                0int
            },
            run: st.run + 1,
            first_match: if st.first_match is None {
                Some(i as nat)
            } else {
                st.first_match
            },
        }
    } else {
        Tally { run: 0, ..st }
    }
}

/// The tally after the first `n` characters of the text.
pub open spec fn tally(query: Seq<char>, text: Seq<char>, n: nat) -> Tally
    decreases n,
{
    if n == 0 {
        Tally { matched: 0, score: 0, run: 0, first_match: None }
    } else {
        tally_step(query, text, tally(query, text, (n - 1) as nat), n - 1)
    }
}

/// The most points that `n` characters can give: the character at index `i`
/// at most three for each character up to it and fifteen for a word's
/// beginning.
pub open spec fn most_points(n: nat) -> int
    decreases n,
{
    if n == 0 {
        0
    } else {
        most_points((n - 1) as nat) + 3 * n + 15
    }
}

/// The sum in closed form, and that it grows with `n`.
pub proof fn lemma_most_points(n: nat)
    ensures
        2 * most_points(n) == 3 * n * (n + 1) + 30 * n,
        forall|m: nat| m <= n ==> most_points(m) <= most_points(n),
    decreases n,
{
    if n > 0 {
        let p = (n - 1) as nat;
        lemma_most_points(p);
        assert(3 * n * (n + 1) + 30 * n == 3 * p * (p + 1) + 30 * p + 2 * (3 * n + 15))
            by (nonlinear_arith)
            requires
                p + 1 == n,
        ;
    } else {
        assert(3 * n * (n + 1) + 30 * n == 0) by (nonlinear_arith)
            requires
                n == 0,
        ;
    }
}

/// A tally never holds more than every character could give, and a run is
/// never longer than the text read so far.
pub proof fn lemma_tally_bounds(query: Seq<char>, text: Seq<char>, n: nat)
    ensures
        0 <= tally(query, text, n).score <= most_points(n),
        tally(query, text, n).run <= n,
        tally(query, text, n).matched <= n,
        tally(query, text, n).matched <= query.len(),
        tally(query, text, n).first_match matches Some(i) ==> i < n,
    decreases n,
{
    if n > 0 {
        lemma_tally_bounds(query, text, (n - 1) as nat);
    }
}

/// What a scan has found.
#[derive(Debug, Clone, Copy, PartialEq, Eq)]
pub struct FuzzyScan {
    /// How many characters of the query were found, in order.
    pub matched: usize,
    /// The points given.
    pub score: i32,
    /// The index in the text of the first match.
    pub first_match: Option<usize>,
}

/// Whether `r` holds what the tally `t` holds.
pub open spec fn scan_of(r: FuzzyScan, t: Tally) -> bool {
    &&& r.matched == t.matched
    &&& r.score == t.score
    &&& match r.first_match {
        Some(i) => t.first_match == Some(i as nat),
        None => t.first_match is None,
    }
}

/// Looks for the characters of the query in the text, in order, and gives
/// points for runs of matches and for matches at the beginning of a word.
pub fn fuzzy_scan(query: &str, text: &str) -> (r: FuzzyScan)
    requires
        text@.len() <= MAX_SCANNED,
    ensures
        scan_of(r, tally(query@, text@, text@.len())),
{
    let q = to_chars(query);
    let t = to_chars(text);
    let mut matched: usize = 0;
    let mut score: i32 = 0;
    let mut run: i32 = 0;
    let mut first_match: Option<usize> = None;
    let mut i: usize = 0;
    while i < t.len()
        invariant
            i <= t.len(),
            t.len() <= MAX_SCANNED,
            q@ == query@,
            t@ == text@,
            run == tally(q@, t@, i as nat).run,
            scan_of(FuzzyScan { matched, score, first_match }, tally(q@, t@, i as nat)),
        decreases t.len() - i,
    {
        proof {
            lemma_tally_bounds(q@, t@, i as nat);
            lemma_tally_bounds(q@, t@, (i + 1) as nat);
            lemma_most_points(32768);
            assert(3 * 32768nat * (32768nat + 1) + 30 * 32768nat == 3222306816int)
                by (nonlinear_arith);
            assert(most_points((i + 1) as nat) <= most_points(32768));
            assert(most_points(32768) < 0x7fff_ffff);
        }
        if matched < q.len() {
            if q[matched] == t[i] {
                if first_match.is_none() {
                    first_match = Some(i);
                }
                matched += 1;
                run += 1;
                score += run * 3;
                if i == 0 || t[i - 1] == '/' || t[i - 1] == '_' || t[i - 1] == '-' || t[i - 1]
                    == '.' {
                    score += 15;
                }
            } else {
                run = 0;
            }
        }
        i += 1;
    }
    FuzzyScan { matched, score, first_match }
}

/// The number of bytes that a character takes in UTF-8.
pub open spec fn utf8_width(c: char) -> nat {
    let n = c as u32;
    if n < 0x80 {
        1
    } else if n < 0x800 {
        2
    } else if n < 0x1_0000 {
        3
    } else {
        4
    }
}

/// The number of bytes that a text takes in UTF-8.
pub open spec fn utf8_len(s: Seq<char>) -> nat
    decreases s.len(),
{
    if s.len() == 0 {
        0
    } else {
        utf8_len(s.drop_last()) + utf8_width(s.last())
    }
}

/// A text takes at least one byte for each character.
pub proof fn lemma_utf8_len_least(s: Seq<char>)
    ensures
        utf8_len(s) >= s.len(),
    decreases s.len(),
{
    if s.len() > 0 {
        lemma_utf8_len_least(s.drop_last());
    }
}

/// Executable `utf8_len` of the first `n` characters.
pub fn utf8_length(s: &Vec<char>, n: usize) -> (r: usize)
    requires
        n <= s.len() <= MAX_TEXT_BYTES,
    ensures
        r == utf8_len(s@.take(n as int)),
        r <= 4 * n,
{
    let mut total: usize = 0;
    let mut i: usize = 0;
    while i < n
        invariant
            i <= n <= s.len() <= MAX_TEXT_BYTES,
            total == utf8_len(s@.take(i as int)),
            total <= 4 * i,
        decreases n - i,
    {
        let c: u32 = s[i] as u32;
        let w: usize = if c < 0x80 {
            1
        } else if c < 0x800 {
            2
        } else if c < 0x1_0000 {
            3
        } else {
            4
        };
        proof {
            assert(s@.take(i + 1).drop_last() =~= s@.take(i as int));
            assert(s@.take(i + 1).last() == s@[i as int]);
        }
        total += w;
        i += 1;
    }
    total
}

/// A number on its way to the 24 significant bits of a single-precision
/// value: the bits kept, the unit that the lowest kept bit stands for, the
/// bit that was dropped last, and whether any bit dropped before it was set.
pub struct Narrowing {
    pub kept: nat,
    pub unit: nat,
    pub half: bool,
    pub rest: bool,
}

/// The narrowing that still keeps all of `x`.
pub open spec fn whole(x: nat) -> Narrowing {
    Narrowing { kept: x, unit: 1, half: false, rest: false }
}

/// Drops low bits until 24 are left.
pub open spec fn narrow(n: Narrowing) -> Narrowing
    decreases n.kept,
{
    if n.kept < 0x100_0000 {
        n
    } else {
        narrow(
            Narrowing {
                kept: n.kept / 2,
                unit: 2 * n.unit,
                half: n.kept % 2 == 1,
                rest: n.rest || n.half,
            },
        )
    }
}

/// The kept bits after rounding to nearest, ties to even.
pub open spec fn rounded(n: Narrowing) -> nat {
    if n.half && (n.rest || n.kept % 2 == 1) {
        n.kept + 1
    } else {
        n.kept
    }
}

/// The number with 24 significant bits that is nearest to `x`, ties to even:
/// what `x` becomes as a single-precision value.
pub open spec fn nearest_single(x: nat) -> nat {
    rounded(narrow(whole(x))) * narrow(whole(x)).unit
}

/// Narrowing keeps the value below the number it began with, and the number
/// it ends with below twice that number.
pub proof fn lemma_narrow(n: Narrowing, x: nat)
    requires
        n.unit >= 1,
        n.kept * n.unit <= x,
        n.half ==> n.kept >= 1,
    ensures
        narrow(n).unit >= 1,
        narrow(n).kept * narrow(n).unit <= x,
        narrow(n).kept < 0x100_0000,
        rounded(narrow(n)) * narrow(n).unit <= 2 * x,
    decreases n.kept,
{
    if n.kept < 0x100_0000 {
        let r = rounded(n);
        assert(r * n.unit <= 2 * x) by (nonlinear_arith)
            requires
                n.kept * n.unit <= x,
                r == n.kept || (r == n.kept + 1 && n.kept >= 1),
                n.unit >= 1,
        ;
    } else {
        let next = Narrowing {
            kept: n.kept / 2,
            unit: 2 * n.unit,
            half: n.kept % 2 == 1,
            rest: n.rest || n.half,
        };
        assert(next.kept * next.unit <= n.kept * n.unit) by (nonlinear_arith)
            requires
                next.kept == n.kept / 2,
                next.unit == 2 * n.unit,
        ;
        lemma_narrow(next, x);
    }
}

/// The greatest number that `round_to_single` takes.
pub const MAX_ROUNDED: u128 = 0x10_0000_0000_0000_0000_0000_0000;

/// Executable `nearest_single`.
pub fn round_to_single(x: u128) -> (r: u128)
    requires
        x <= MAX_ROUNDED,
    ensures
        r == nearest_single(x as nat),
        r <= 2 * x,
{
    let mut kept: u128 = x;
    let mut unit: u128 = 1;
    let mut half = false;
    let mut rest = false;
    while kept >= 0x100_0000
        invariant
            unit >= 1,
            kept * unit <= x,
            x <= MAX_ROUNDED,
            half ==> kept >= 1,
            narrow(whole(x as nat)) == narrow(
                Narrowing { kept: kept as nat, unit: unit as nat, half, rest },
            ),
        decreases kept,
    {
        proof {
            assert((kept / 2) * (2 * unit) <= kept * unit && 2 * unit <= kept * unit)
                by (nonlinear_arith)
                requires
                    kept >= 2,
                    unit >= 1,
            ;
        }
        rest = rest || half;
        half = kept % 2 == 1;
        kept = kept / 2;
        unit = unit * 2;
    }
    let mant: u128 = if half && (rest || kept % 2 == 1) {
        kept + 1
    } else {
        kept
    };
    proof {
        lemma_narrow(Narrowing { kept: kept as nat, unit: unit as nat, half, rest }, x as nat);
    }
    mant * unit
}

/// The 24 bits of the single-precision value nearest to `m / q`, for a
/// quotient of at least one half and below one: that value times 2^24.
pub open spec fn ratio_bits(m: nat, q: nat) -> nat {
    let x = m * 0x100_0000;
    if 2 * (x % q) > q || (2 * (x % q) == q && (x / q) % 2 == 1) {
        x / q + 1
    } else {
        x / q
    }
}

/// The whole part of the single-precision product of `s` and `m / q`, each
/// operand and the product rounded to single precision as the arithmetic
/// of the machine rounds them.
pub open spec fn single_product(s: nat, m: nat, q: nat) -> nat {
    nearest_single(nearest_single(s) * ratio_bits(m, q)) / 0x100_0000
}

/// A number brought into the range of `i32`, as a cast from a floating-point
/// value brings it there.
pub open spec fn saturated(v: int) -> int {
    if v > i32::MAX {
        i32::MAX as int
    } else if v < i32::MIN {
        i32::MIN as int
    } else {
        v
    }
}

/// Executable `saturated`.
pub fn saturate(v: i128) -> (r: i32)
    ensures
        r == saturated(v as int),
{
    if v > 0x7fff_ffff {
        0x7fff_ffff
    } else if v < -0x8000_0000 {
        -0x8000_0000
    } else {
        v as i32
    }
}

/// The points of a scan that found `matched` of the `query_len` characters,
/// scaled by that share in single-precision arithmetic.
pub fn scale_score(score: i32, matched: usize, query_len: usize) -> (r: i32)
    requires
        0 <= score,
        matched < query_len <= MAX_SCANNED,
        query_len <= 2 * matched,
    ensures
        r == saturated(single_product(score as nat, matched as nat, query_len as nat) as int),
{
    let x: u128 = (matched as u128) * 0x100_0000;
    let q: u128 = query_len as u128;
    let d: u128 = x / q;
    let rem: u128 = x % q;
    proof {
        assert(x / q <= x) by (nonlinear_arith)
            requires
                q >= 1,
                x >= 0,
        ;
    }
    let bits: u128 = if 2 * rem > q || (2 * rem == q && d % 2 == 1) {
        d + 1
    } else {
        d
    };
    let base: u128 = round_to_single(score as u128);
    proof {
        assert(base * bits <= 0x1_0000_0000 * 0x100_0000_0000) by (nonlinear_arith)
            requires
                base <= 0x1_0000_0000,
                bits <= 0x100_0000_0000,
        ;
    }
    let product: u128 = round_to_single(base * bits);
    saturate((product / 0x100_0000) as i128)
}

/// The score that a scan ends with. A scan that found less than seven tenths
/// of the query gives -50. Else the points, scaled by the share of the query
/// that was found where not all of it was found, lose half a point for each
/// character before the first match, gain 500 and lose half a point for each
/// character of the text. A result below -10 becomes -5 where at least half
/// of the query was found.
pub open spec fn finished(scan: FuzzyScan, query_len: nat, text_len: nat) -> int {
    if scan.matched < query_len && 10 * scan.matched < 7 * query_len {
        -50
    } else {
        let points: int = if scan.matched < query_len {
            saturated(single_product(scan.score as nat, scan.matched as nat, query_len) as int)
        } else {
            scan.score as int
        };
        let late: int = match scan.first_match {
            Some(i) => i as int / 2,
            None => 0,
        };
        let total = points - late + 500 - text_len as int / 2;
        if total < -10 && 2 * scan.matched >= query_len {
            -5
        } else {
            saturated(total)
        }
    }
}

/// Executable `finished`.
pub fn finish_score(scan: FuzzyScan, query_len: usize, text_len: usize) -> (r: i32)
    requires
        0 <= scan.score,
        scan.matched <= query_len,
        1 <= query_len <= MAX_SCANNED,
        text_len <= MAX_SCANNED,
    ensures
        r == finished(scan, query_len as nat, text_len as nat),
{
    let partial = scan.matched < query_len;
    if partial && 10 * scan.matched < 7 * query_len {
        return -50;
    }
    let points: i32 = if partial {
        scale_score(scan.score, scan.matched, query_len)
    } else {
        scan.score
    };
    let late: usize = match scan.first_match {
        Some(i) => i / 2,
        None => 0,
    };
    let total: i128 = points as i128 - late as i128 + 500 - (text_len / 2) as i128;
    if total < -10 && 2 * scan.matched >= query_len {
        -5
    } else {
        saturate(total)
    }
}

/// The score of a query for a text, both in lower case; `text_len` is the
/// number of bytes of the text as it was given. The same text gives 10000. A
/// text that begins with the query gives 6000 less its length; one that holds
/// the query gives 4000 less its length and less the number of bytes before
/// the query. A query longer than the text gives -100. Else the characters of
/// the query are looked for in the text, in order.
pub open spec fn lowered_score(query: Seq<char>, text: Seq<char>, text_len: nat) -> int {
    if query == text {
        10000
    } else if starts_with(text, query) {
        5000 + (1000 - text_len)
    } else {
        match find(text, query) {
            Some(i) => 3000 - utf8_len(text.take(i)) + (1000 - text_len),
            None => if query.len() > text.len() {
                -100
            } else {
                let t = tally(query, text, text.len());
                finished(
                    FuzzyScan {
                        matched: t.matched as usize,
                        score: t.score as i32,
                        first_match: match t.first_match {
                            Some(i) => Some(i as usize),
                            None => None,
                        },
                    },
                    query.len(),
                    text.len(),
                )
            },
        }
    }
}

/// Executable `lowered_score`.
pub fn score_lowered(query: &str, text: &str, text_len: usize) -> (r: i32)
    requires
        text@.len() <= MAX_SCANNED,
        text_len <= MAX_TEXT_BYTES,
    ensures
        r == lowered_score(query@, text@, text_len as nat),
{
    let q = to_chars(query);
    let t = to_chars(text);
    if same_chars(&q, &t) {
        return 10000;
    }
    if match_at(&t, &q, 0) {
        return 5000 + (1000 - text_len as i32);
    }
    proof {
        lemma_find_from(t@, q@, 0);
    }
    if let Some(i) = find_index_from(&t, &q, 0) {
        let pos = utf8_length(&t, i);
        return 3000 - pos as i32 + (1000 - text_len as i32);
    }
    if q.len() > t.len() {
        return -100;
    }
    assert(q.len() >= 1) by {
        if q.len() == 0 {
            assert(t@.subrange(0, 0) =~= q@);
        }
    }
    let scan = fuzzy_scan(query, text);
    proof {
        lemma_tally_bounds(q@, t@, t@.len());
    }
    finish_score(scan, q.len(), t.len())
}

/// The text that `str::to_lowercase` of the standard library makes of a text.
pub uninterp spec fn lowercase(s: Seq<char>) -> Seq<char>;

/// `str::to_lowercase`: the text in lower case, as Unicode defines it.
#[verifier::external_body]
pub(crate) fn to_lowercase(s: &str) -> (r: String)
    ensures
        r@ == lowercase(s@),
{
    s.to_lowercase()
}

/// The score of a query for a text, or `None` for a text that is too long to
/// be scored: an empty query gives 0, any other the score of query and text
/// in lower case.
pub open spec fn fuzzy_score(query: Seq<char>, text: Seq<char>) -> Option<int> {
    if query.len() == 0 {
        Some(0)
    } else if lowercase(text).len() > MAX_SCANNED || utf8_len(text) > MAX_TEXT_BYTES {
        None
    } else {
        Some(lowered_score(lowercase(query), lowercase(text), utf8_len(text)))
    }
}

/// How well a text fits a query; the higher the better.
pub fn calculate_fuzzy_score(query: &str, text: &str) -> (r: Option<i32>)
    ensures
        match r {
            Some(score) => fuzzy_score(query@, text@) == Some(score as int),
            None => fuzzy_score(query@, text@) is None,
        },
{
    let given = to_chars(query);
    if given.len() == 0 {
        return Some(0);
    }
    let query_lower = to_lowercase(query);
    let text_lower = to_lowercase(text);
    let lowered = to_chars(text_lower.as_str());
    if lowered.len() > MAX_SCANNED {
        return None;
    }
    let given_text = to_chars(text);
    proof {
        lemma_utf8_len_least(text@);
    }
    if given_text.len() > MAX_TEXT_BYTES {
        return None;
    }
    assert(given_text@.take(given_text.len() as int) =~= text@);
    let text_len = utf8_length(&given_text, given_text.len());
    if text_len > MAX_TEXT_BYTES {
        return None;
    }
    Some(score_lowered(query_lower.as_str(), text_lower.as_str(), text_len))
}

/// The greater of two numbers.
pub open spec fn greater(a: int, b: int) -> int {
    if a >= b {
        a
    } else {
        b
    }
}

/// The score of the file name as it enters the comparison: a score above 0
/// gains 1000 for a file and 800 for a directory.
pub open spec fn name_score(filename_score: int, is_directory: bool) -> int {
    if filename_score > 0 {
        filename_score + if is_directory {
            800int
        } else {
            1000int
        }
    } else {
        filename_score
    }
}

/// The score of an entry: the best of the scores of its file name, its path,
/// its best path segment and its extension.
pub open spec fn entry_score(
    filename_score: int,
    path_score: int,
    segment_score: int,
    extension_score: int,
    is_directory: bool,
) -> int {
    greater(
        greater(name_score(filename_score, is_directory), path_score),
        greater(segment_score, extension_score),
    )
}

/// The score with which an entry is ranked.
pub fn final_score(
    filename_score: i32,
    path_score: i32,
    segment_score: i32,
    extension_score: i32,
    is_directory: bool,
) -> (r: i32)
    requires
        filename_score <= i32::MAX - 1000,
    ensures
        r == entry_score(
            filename_score as int,
            path_score as int,
            segment_score as int,
            extension_score as int,
            is_directory,
        ),
{
    let name: i32 = if filename_score > 0 {
        if is_directory {
            filename_score + 800
        } else {
            filename_score + 1000
        }
    } else {
        filename_score
    };
    let a: i32 = if name >= path_score {
        name
    } else {
        path_score
    };
    let b: i32 = if segment_score >= extension_score {
        segment_score
    } else {
        extension_score
    };
    if a >= b {
        a
    } else {
        b
    }
}

/// The least score with which an entry is listed.
pub const LEAST_LISTED: i32 = -10;

/// Whether an entry with this score is listed among the results.
pub fn is_listed(score: i32) -> (r: bool)
    ensures
        r == (score >= LEAST_LISTED),
{
    score >= LEAST_LISTED
}

} // verus!
