//! Character sequences: the mathematical vocabulary (whitespace, trimming,
//! searching, splitting into lines) and the executable functions that compute it.

use vstd::prelude::*;
use vstd::utf8::{decode_utf8, valid_utf8};

verus! {

/// `String::push` of the standard library appends one character.
pub assume_specification[ String::push ](s: &mut String, c: char)
    ensures
        final(s)@ == old(s)@.push(c),
;

/// `std::str::from_utf8`: the text of the bytes, where they are valid UTF-8.
#[verifier::external_body]
pub(crate) fn text_of_bytes(bytes: &[u8]) -> (r: Option<&str>)
    ensures
        r is Some <==> valid_utf8(bytes@),
        r matches Some(text) ==> text@ == decode_utf8(bytes@),
{
    std::str::from_utf8(bytes).ok()
}

/// The characters of a string slice, in order.
pub fn to_chars(s: &str) -> (r: Vec<char>)
    ensures
        r@ == s@,
{
    let mut out: Vec<char> = Vec::new();
    for c in it: s.chars()
        invariant
            it.seq() == s@,
            out@ =~= s@.take(it.index() as int),
    {
        out.push(c);
    }
    assert(out@ =~= s@);
    out
}

/// The string made of the given characters, in order.
pub fn from_chars(v: &Vec<char>) -> (r: String)
    ensures
        r@ == v@,
{
    let mut out = String::new();
    let mut i: usize = 0;
    while i < v.len()
        invariant
            i <= v.len(),
            out@ =~= v@.take(i as int),
        decreases v.len() - i,
    {
        out.push(v[i]);
        i += 1;
    }
    assert(out@ =~= v@);
    out
}

/// The views of a vector of character vectors.
pub open spec fn views(v: Seq<Vec<char>>) -> Seq<Seq<char>> {
    Seq::new(v.len(), |i: int| v[i]@)
}

/// The views of a vector with one more element.
pub proof fn lemma_views_push(v: Seq<Vec<char>>, x: Vec<char>)
    ensures
        views(v.push(x)) =~= views(v).push(x@),
{
}

/// A copy of `s[from..to]`.
pub fn slice_of(s: &Vec<char>, from: usize, to: usize) -> (r: Vec<char>)
    requires
        from <= to <= s.len(),
    ensures
        r@ == s@.subrange(from as int, to as int),
{
    let mut out: Vec<char> = Vec::new();
    let mut i: usize = from;
    while i < to
        invariant
            from <= i <= to <= s.len(),
            out@ =~= s@.subrange(from as int, i as int),
        decreases to - i,
    {
        out.push(s[i]);
        i += 1;
    }
    out
}

/// Appends the characters of `tail` to `out`.
pub fn append(out: &mut Vec<char>, tail: &Vec<char>)
    ensures
        final(out)@ == old(out)@ + tail@,
{
    let mut i: usize = 0;
    while i < tail.len()
        invariant
            i <= tail.len(),
            out@ =~= old(out)@ + tail@.take(i as int),
        decreases tail.len() - i,
    {
        out.push(tail[i]);
        i += 1;
    }
    assert(tail@.take(tail.len() as int) =~= tail@);
}

/// Whether two character vectors hold the same characters.
pub fn same_chars(a: &Vec<char>, b: &Vec<char>) -> (r: bool)
    ensures
        r == (a@ == b@),
{
    if a.len() != b.len() {
        return false;
    }
    let mut i: usize = 0;
    while i < a.len()
        invariant
            i <= a.len(),
            a.len() == b.len(),
            a@.take(i as int) =~= b@.take(i as int),
        decreases a.len() - i,
    {
        if a[i] != b[i] {
            return false;
        }
        assert(a@.take(i + 1) =~= a@.take(i as int).push(a@[i as int]));
        assert(b@.take(i + 1) =~= b@.take(i as int).push(b@[i as int]));
        i += 1;
    }
    assert(a@ =~= a@.take(a.len() as int));
    assert(b@ =~= b@.take(b.len() as int));
    true
}

/// White space as Unicode defines it: the characters that carry `White_Space`.
pub open spec fn is_whitespace(c: char) -> bool {
    let n = c as u32;
    ||| 0x09 <= n <= 0x0D
    ||| n == 0x20
    ||| n == 0x85
    ||| n == 0xA0
    ||| n == 0x1680
    ||| 0x2000 <= n <= 0x200A
    ||| n == 0x2028
    ||| n == 0x2029
    ||| n == 0x202F
    ||| n == 0x205F
    ||| n == 0x3000
}

/// The characters that may surround a path argument: backtick and both quotes.
pub open spec fn is_quote(c: char) -> bool {
    c == '`' || c == '\'' || c == '"'
}

/// A class of characters that trimming removes from the ends of a sequence.
#[derive(Clone, Copy, Debug, PartialEq, Eq)]
pub enum CharClass {
    Whitespace,
    Quote,
}

impl CharClass {
    /// Whether `c` belongs to the class.
    pub open spec fn holds(self, c: char) -> bool {
        match self {
            CharClass::Whitespace => is_whitespace(c),
            CharClass::Quote => is_quote(c),
        }
    }

    /// Executable `holds`.
    pub fn has(&self, c: char) -> (r: bool)
        ensures
            r == self.holds(c),
    {
        match self {
            CharClass::Whitespace => {
                let n: u32 = c as u32;
                (0x09 <= n && n <= 0x0D) || n == 0x20 || n == 0x85 || n == 0xA0 || n == 0x1680 || (
                0x2000 <= n && n <= 0x200A) || n == 0x2028 || n == 0x2029 || n == 0x202F || n
                    == 0x205F || n == 0x3000
            },
            CharClass::Quote => c == '`' || c == '\'' || c == '"',
        }
    }
}

/// `s` without its longest prefix of characters of `class`.
pub open spec fn trim_start_of(s: Seq<char>, class: CharClass) -> Seq<char>
    decreases s.len(),
{
    if s.len() > 0 && class.holds(s[0]) {
        trim_start_of(s.drop_first(), class)
    } else {
        s
    }
}

/// `s` without its longest suffix of characters of `class`.
pub open spec fn trim_end_of(s: Seq<char>, class: CharClass) -> Seq<char>
    decreases s.len(),
{
    if s.len() > 0 && class.holds(s.last()) {
        trim_end_of(s.drop_last(), class)
    } else {
        s
    }
}

/// `s` without the characters of `class` at both ends.
pub open spec fn trim_of(s: Seq<char>, class: CharClass) -> Seq<char> {
    trim_end_of(trim_start_of(s, class), class)
}

/// `s` without surrounding white space.
pub open spec fn trim(s: Seq<char>) -> Seq<char> {
    trim_of(s, CharClass::Whitespace)
}

/// Executable `trim_of`.
pub fn trim_class(s: &Vec<char>, class: CharClass) -> (r: Vec<char>)
    ensures
        r@ == trim_of(s@, class),
{
    let mut a: usize = 0;
    assert(s@.skip(0) =~= s@);
    while a < s.len() && class.has(s[a])
        invariant
            a <= s.len(),
            trim_start_of(s@, class) == trim_start_of(s@.skip(a as int), class),
        decreases s.len() - a,
    {
        assert(s@.skip(a as int).drop_first() =~= s@.skip(a + 1));
        a += 1;
    }
    let ghost rest = s@.skip(a as int);
    assert(trim_start_of(s@, class) == rest);
    let mut b: usize = s.len();
    assert(s@.subrange(a as int, b as int) =~= rest);
    while b > a && class.has(s[b - 1])
        invariant
            a <= b <= s.len(),
            rest == s@.skip(a as int),
            trim_end_of(rest, class) == trim_end_of(s@.subrange(a as int, b as int), class),
        decreases b - a,
    {
        assert(s@.subrange(a as int, b as int).drop_last() =~= s@.subrange(a as int, b - 1));
        b -= 1;
    }
    slice_of(s, a, b)
}

/// Executable `trim`.
pub fn trim_chars(s: &Vec<char>) -> (r: Vec<char>)
    ensures
        r@ == trim(s@),
{
    trim_class(s, CharClass::Whitespace)
}

/// Whether `pat` stands in `s` at index `i`.
pub open spec fn occurs_at(s: Seq<char>, pat: Seq<char>, i: int) -> bool {
    0 <= i && i + pat.len() <= s.len() && s.subrange(i, i + pat.len()) =~= pat
}

/// The least index, not below `from`, at which `pat` stands in `s`.
pub open spec fn find_from(s: Seq<char>, pat: Seq<char>, from: int) -> Option<int>
    decreases s.len() - from,
{
    if from < 0 || from + pat.len() > s.len() {
        None
    } else if occurs_at(s, pat, from) {
        Some(from)
    } else {
        find_from(s, pat, from + 1)
    }
}

/// The least index at which `pat` stands in `s`.
pub open spec fn find(s: Seq<char>, pat: Seq<char>) -> Option<int> {
    find_from(s, pat, 0)
}

/// What `find_from` returns is the first occurrence, and `None` means there is none.
pub proof fn lemma_find_from(s: Seq<char>, pat: Seq<char>, from: int)
    requires
        0 <= from,
    ensures
        match find_from(s, pat, from) {
            Some(i) => from <= i && occurs_at(s, pat, i) && forall|j: int|
                from <= j < i ==> !occurs_at(s, pat, j),
            None => forall|j: int| from <= j ==> !occurs_at(s, pat, j),
        },
    decreases s.len() - from,
{
    if from + pat.len() > s.len() {
    } else if occurs_at(s, pat, from) {
    } else {
        lemma_find_from(s, pat, from + 1);
    }
}

/// Executable `occurs_at`.
pub fn match_at(s: &Vec<char>, pat: &Vec<char>, i: usize) -> (r: bool)
    ensures
        r == occurs_at(s@, pat@, i as int),
{
    if pat.len() > s.len() || i > s.len() - pat.len() {
        return false;
    }
    let mut k: usize = 0;
    while k < pat.len()
        invariant
            k <= pat.len(),
            i + pat.len() <= s.len(),
            s@.subrange(i as int, i + k) =~= pat@.take(k as int),
        decreases pat.len() - k,
    {
        if s[i + k] != pat[k] {
            assert(s@.subrange(i as int, i + pat.len())[k as int] != pat@[k as int]);
            return false;
        }
        k += 1;
    }
    assert(pat@.take(pat.len() as int) =~= pat@);
    true
}

/// Executable `find_from`.
pub fn find_index_from(s: &Vec<char>, pat: &Vec<char>, from: usize) -> (r: Option<usize>)
    ensures
        match r {
            Some(i) => find_from(s@, pat@, from as int) == Some(i as int) && from <= i && i
                + pat.len() <= s.len(),
            None => find_from(s@, pat@, from as int) is None,
        },
{
    if pat.len() > s.len() {
        return None;
    }
    let last: usize = s.len() - pat.len();
    let mut i: usize = from;
    while i <= last
        invariant
            from <= i,
            last == s.len() - pat.len(),
            find_from(s@, pat@, from as int) == find_from(s@, pat@, i as int),
        decreases last + 1 - i,
    {
        if match_at(s, pat, i) {
            return Some(i);
        }
        i += 1;
    }
    None
}

/// The upper-case form of an ASCII letter; any other character unchanged.
pub open spec fn ascii_upper(c: char) -> char {
    if 0x61 <= c as u32 <= 0x7A {
        ((c as u32 - 0x20) as u8) as char
    } else {
        c
    }
}

/// Executable `ascii_upper`.
pub fn to_ascii_upper(c: char) -> (r: char)
    ensures
        r == ascii_upper(c),
{
    let n: u32 = c as u32;
    if 0x61 <= n && n <= 0x7A {
        ((n - 0x20) as u8) as char
    } else {
        c
    }
}

/// Whether `pat` stands in `s` at index `i` when ASCII letters are compared
/// without regard to case.
pub open spec fn occurs_at_ignore_case(s: Seq<char>, pat: Seq<char>, i: int) -> bool {
    &&& 0 <= i
    &&& i + pat.len() <= s.len()
    &&& forall|k: int|
        0 <= k < pat.len() ==> ascii_upper(#[trigger] s[i + k]) == ascii_upper(pat[k])
}

/// Executable `occurs_at_ignore_case`.
pub fn match_at_ignore_case(s: &Vec<char>, pat: &Vec<char>, i: usize) -> (r: bool)
    ensures
        r == occurs_at_ignore_case(s@, pat@, i as int),
{
    if pat.len() > s.len() || i > s.len() - pat.len() {
        return false;
    }
    let mut k: usize = 0;
    while k < pat.len()
        invariant
            k <= pat.len(),
            i + pat.len() <= s.len(),
            forall|j: int| 0 <= j < k ==> ascii_upper(#[trigger] s@[i + j]) == ascii_upper(pat@[j]),
        decreases pat.len() - k,
    {
        if to_ascii_upper(s[i + k]) != to_ascii_upper(pat[k]) {
            return false;
        }
        k += 1;
    }
    true
}

/// The greatest index below `end` at which `pat` stands in `s`, ASCII case ignored.
pub open spec fn rfind_ignore_case_below(s: Seq<char>, pat: Seq<char>, end: int) -> Option<int>
    decreases end,
{
    if end <= 0 {
        None
    } else if occurs_at_ignore_case(s, pat, end - 1) {
        Some(end - 1)
    } else {
        rfind_ignore_case_below(s, pat, end - 1)
    }
}

/// The greatest index at which `pat` stands in `s`, ASCII case ignored.
pub open spec fn rfind_ignore_case(s: Seq<char>, pat: Seq<char>) -> Option<int> {
    rfind_ignore_case_below(s, pat, s.len() - pat.len() + 1)
}

/// What `rfind_ignore_case_below` returns is the last occurrence below `end`.
pub proof fn lemma_rfind_ignore_case_below(s: Seq<char>, pat: Seq<char>, end: int)
    ensures
        match rfind_ignore_case_below(s, pat, end) {
            Some(i) => 0 <= i < end && occurs_at_ignore_case(s, pat, i) && forall|j: int|
                i < j < end ==> !occurs_at_ignore_case(s, pat, j),
            None => forall|j: int| 0 <= j < end ==> !occurs_at_ignore_case(s, pat, j),
        },
    decreases end,
{
    if end <= 0 {
    } else if occurs_at_ignore_case(s, pat, end - 1) {
    } else {
        lemma_rfind_ignore_case_below(s, pat, end - 1);
    }
}

/// Executable `rfind_ignore_case`.
pub fn rfind_index_ignore_case(s: &Vec<char>, pat: &Vec<char>) -> (r: Option<usize>)
    ensures
        match r {
            Some(i) => rfind_ignore_case(s@, pat@) == Some(i as int) && i + pat.len() <= s.len(),
            None => rfind_ignore_case(s@, pat@) is None,
        },
{
    if pat.len() > s.len() {
        return None;
    }
    let top: usize = s.len() - pat.len();
    if match_at_ignore_case(s, pat, top) {
        return Some(top);
    }
    let mut end: usize = top;
    while end > 0
        invariant
            end <= s.len() - pat.len(),
            pat.len() <= s.len(),
            rfind_ignore_case(s@, pat@) == rfind_ignore_case_below(s@, pat@, end as int),
        decreases end,
    {
        if match_at_ignore_case(s, pat, end - 1) {
            return Some(end - 1);
        }
        end -= 1;
    }
    None
}

/// Whether `s` begins with `pat`.
pub open spec fn starts_with(s: Seq<char>, pat: Seq<char>) -> bool {
    occurs_at(s, pat, 0)
}

/// Whether `s` ends with the character `c`.
pub open spec fn ends_with_char(s: Seq<char>, c: char) -> bool {
    s.len() > 0 && s.last() == c
}

/// The index of the first `c` in `s`, or the length of `s` where there is none.
pub open spec fn index_of(s: Seq<char>, c: char) -> int
    decreases s.len(),
{
    if s.len() == 0 || s[0] == c {
        0
    } else {
        1 + index_of(s.drop_first(), c)
    }
}

/// Executable `index_of`, counted from `from`: the index in `s` of the first
/// `c` at or after `from`, or the length of `s`.
pub fn index_of_from(s: &Vec<char>, c: char, from: usize) -> (r: usize)
    requires
        from <= s.len(),
    ensures
        from <= r <= s.len(),
        r - from == index_of(s@.skip(from as int), c),
{
    let mut i: usize = from;
    assert(s@.skip(from as int).skip(0) =~= s@.skip(from as int));
    while i < s.len() && s[i] != c
        invariant
            from <= i <= s.len(),
            index_of(s@.skip(from as int), c) == (i - from) + index_of(s@.skip(i as int), c),
        decreases s.len() - i,
    {
        assert(s@.skip(i as int).drop_first() =~= s@.skip(i + 1));
        i += 1;
    }
    i
}

/// The pieces of `s` between occurrences of `sep`; always at least one piece.
pub open spec fn split(s: Seq<char>, sep: char) -> Seq<Seq<char>>
    decreases s.len(),
{
    let n = index_of(s, sep);
    if 0 <= n < s.len() {
        seq![s.take(n)] + split(s.skip(n + 1), sep)
    } else {
        seq![s]
    }
}

/// Executable `split`.
pub fn split_chars(s: &Vec<char>, sep: char) -> (r: Vec<Vec<char>>)
    ensures
        views(r@) == split(s@, sep),
        r.len() >= 1,
{
    let mut out: Vec<Vec<char>> = Vec::new();
    let mut pos: usize = 0;
    assert(s@.skip(0) =~= s@);
    assert(views(out@) + split(s@.skip(0), sep) =~= split(s@, sep));
    loop
        invariant_except_break
            pos <= s.len(),
            split(s@, sep) == views(out@) + split(s@.skip(pos as int), sep),
        ensures
            views(out@) == split(s@, sep),
            out.len() >= 1,
        decreases s.len() - pos,
    {
        let e = index_of_from(s, sep, pos);
        let piece = slice_of(s, pos, e);
        let ghost rest = s@.skip(pos as int);
        let ghost before = out@;
        proof {
            lemma_views_push(before, piece);
            assert(rest.take(e - pos) =~= s@.subrange(pos as int, e as int));
        }
        out.push(piece);
        if e < s.len() {
            proof {
                assert(rest.skip(e - pos + 1) =~= s@.skip(e + 1));
                assert(views(out@) + split(s@.skip(e + 1), sep) =~= views(before) + (seq![
                    rest.take(e - pos),
                ] + split(rest.skip(e - pos + 1), sep)));
            }
            pos = e + 1;
        } else {
            proof {
                assert(rest.take(e - pos) =~= rest);
                assert(views(out@) =~= views(before) + seq![rest]);
            }
            break;
        }
    }
    out
}

/// `s` without one final carriage return, where it has one.
pub open spec fn strip_cr(s: Seq<char>) -> Seq<char> {
    if ends_with_char(s, '\r') {
        s.drop_last()
    } else {
        s
    }
}

/// Executable `strip_cr`.
pub fn strip_cr_chars(s: &Vec<char>) -> (r: Vec<char>)
    ensures
        r@ == strip_cr(s@),
{
    let n: usize = s.len();
    if n > 0 && s[n - 1] == '\r' {
        let r = slice_of(s, 0, n - 1);
        assert(s@.drop_last() =~= s@.subrange(0, n - 1));
        r
    } else {
        let r = slice_of(s, 0, n);
        assert(s@ =~= s@.subrange(0, n as int));
        r
    }
}

/// The lines of a text. A line ends at a line feed; the line feed, and one
/// carriage return before it, are not part of the line. Text after the last
/// line feed is a line of its own unless it is empty.
pub open spec fn lines(s: Seq<char>) -> Seq<Seq<char>> {
    let parts = split(s, '\n');
    let terminated = Seq::new((parts.len() - 1) as nat, |i: int| strip_cr(parts[i]));
    if parts.last().len() > 0 {
        terminated.push(parts.last())
    } else {
        terminated
    }
}

/// Executable `lines`.
pub fn lines_of(s: &Vec<char>) -> (r: Vec<Vec<char>>)
    ensures
        views(r@) == lines(s@),
{
    let parts = split_chars(s, '\n');
    let ghost ps = split(s@, '\n');
    let mut out: Vec<Vec<char>> = Vec::new();
    let n: usize = parts.len();
    let mut i: usize = 0;
    while i < n - 1
        invariant
            n == parts.len(),
            n >= 1,
            i <= n - 1,
            views(parts@) == ps,
            out.len() == i,
            forall|j: int| 0 <= j < i ==> (#[trigger] out@[j])@ == strip_cr(ps[j]),
        decreases n - i,
    {
        assert(ps[i as int] == parts@[i as int]@);
        let line = strip_cr_chars(&parts[i]);
        out.push(line);
        i += 1;
    }
    assert(ps.last() == parts@[n - 1]@);
    let ghost terminated = Seq::new((ps.len() - 1) as nat, |i: int| strip_cr(ps[i]));
    assert(views(out@) =~= terminated);
    if parts[n - 1].len() > 0 {
        let tail = slice_of(&parts[n - 1], 0, parts[n - 1].len());
        assert(tail@ =~= ps.last());
        proof {
            lemma_views_push(out@, tail);
        }
        out.push(tail);
    }
    out
}

/// The sequences of `parts` joined, with `sep` between neighbours.
pub open spec fn join(parts: Seq<Seq<char>>, sep: Seq<char>) -> Seq<char>
    decreases parts.len(),
{
    if parts.len() == 0 {
        seq![]
    } else if parts.len() == 1 {
        parts[0]
    } else {
        join(parts.drop_last(), sep) + sep + parts.last()
    }
}

/// The sequences of `parts` one after another, each followed by `end`.
pub open spec fn concat_each(parts: Seq<Seq<char>>, end: Seq<char>) -> Seq<char>
    decreases parts.len(),
{
    if parts.len() == 0 {
        seq![]
    } else {
        concat_each(parts.drop_last(), end) + parts.last() + end
    }
}

/// Executable `join` over `parts[from..to]`.
pub fn join_range(parts: &Vec<Vec<char>>, from: usize, to: usize, sep: &Vec<char>) -> (r: Vec<char>)
    requires
        from <= to <= parts.len(),
    ensures
        r@ == join(views(parts@).subrange(from as int, to as int), sep@),
{
    let mut out: Vec<char> = Vec::new();
    let mut i: usize = from;
    let ghost all = views(parts@);
    while i < to
        invariant
            from <= i <= to <= parts.len(),
            all == views(parts@),
            out@ == join(all.subrange(from as int, i as int), sep@),
        decreases to - i,
    {
        let ghost cur = all.subrange(from as int, i + 1);
        assert(cur.drop_last() =~= all.subrange(from as int, i as int));
        assert(cur.last() == parts@[i as int]@);
        if i > from {
            append(&mut out, sep);
        } else {
            assert(out@ + parts@[i as int]@ =~= parts@[i as int]@);
        }
        append(&mut out, &parts[i]);
        i += 1;
    }
    out
}

/// Executable `concat_each` over `parts[from..to]`, appended to `out`.
pub fn append_each(
    out: &mut Vec<char>,
    parts: &Vec<Vec<char>>,
    from: usize,
    to: usize,
    end: &Vec<char>,
)
    requires
        from <= to <= parts.len(),
    ensures
        final(out)@ == old(out)@ + concat_each(
            views(parts@).subrange(from as int, to as int),
            end@,
        ),
{
    let mut i: usize = from;
    let ghost all = views(parts@);
    assert(out@ + concat_each(all.subrange(from as int, from as int), end@) =~= out@);
    while i < to
        invariant
            from <= i <= to <= parts.len(),
            all == views(parts@),
            out@ == old(out)@ + concat_each(all.subrange(from as int, i as int), end@),
        decreases to - i,
    {
        let ghost cur = all.subrange(from as int, i + 1);
        let ghost before = out@;
        assert(cur.drop_last() =~= all.subrange(from as int, i as int));
        assert(cur.last() == parts@[i as int]@);
        append(out, &parts[i]);
        append(out, end);
        assert(out@ =~= old(out)@ + concat_each(cur, end@));
        i += 1;
    }
}

} // verus!
