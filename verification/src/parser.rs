//! The directive parser: from the text of a markdown document to the ordered
//! list of directives it holds, at most one for each target path.

use crate::text::{
    ends_with_char, find_from, find_index_from, from_chars, is_whitespace, join, join_range,
    lemma_find_from, lemma_rfind_ignore_case_below, lemma_views_push, lines, lines_of, match_at,
    match_at_ignore_case, occurs_at_ignore_case, rfind_ignore_case, rfind_index_ignore_case,
    slice_of, starts_with, strip_cr, strip_cr_chars, to_chars, trim, trim_chars, trim_class,
    trim_of, views, CharClass,
};
use vstd::prelude::*;

verus! {

/// One instruction taken from a document, before any file is looked at.
#[derive(Debug, PartialEq)]
pub enum IntermediateOperation {
    Patch { file_path: String, search_replace_blocks: Vec<(String, String)>, is_new_file: bool },
    Overwrite { file_path: String, content: String, is_new_file: bool },
    Delete { file_path: String },
    Move { from_path: String, to_path: String },
}

/// The mathematical value of an `IntermediateOperation`.
pub enum Directive {
    Patch { file_path: Seq<char>, blocks: Seq<(Seq<char>, Seq<char>)>, is_new_file: bool },
    Overwrite { file_path: Seq<char>, content: Seq<char>, is_new_file: bool },
    Delete { file_path: Seq<char> },
    Move { from_path: Seq<char>, to_path: Seq<char> },
}

/// The views of a vector of search/replace pairs.
pub open spec fn block_views(v: Seq<(String, String)>) -> Seq<(Seq<char>, Seq<char>)> {
    Seq::new(v.len(), |i: int| (v[i].0@, v[i].1@))
}

impl View for IntermediateOperation {
    type V = Directive;

    open spec fn view(&self) -> Directive {
        match self {
            IntermediateOperation::Patch { file_path, search_replace_blocks, is_new_file } => {
                Directive::Patch {
                    file_path: file_path@,
                    blocks: block_views(search_replace_blocks@),
                    is_new_file: *is_new_file,
                }
            },
            IntermediateOperation::Overwrite { file_path, content, is_new_file } => {
                Directive::Overwrite {
                    file_path: file_path@,
                    content: content@,
                    is_new_file: *is_new_file,
                }
            },
            IntermediateOperation::Delete { file_path } => Directive::Delete {
                file_path: file_path@,
            },
            IntermediateOperation::Move { from_path, to_path } => Directive::Move {
                from_path: from_path@,
                to_path: to_path@,
            },
        }
    }
}

/// The views of a vector of operations.
pub open spec fn directive_views(v: Seq<IntermediateOperation>) -> Seq<Directive> {
    Seq::new(v.len(), |i: int| v[i]@)
}

impl Directive {
    /// The path by which a directive is known: the source of a move, the
    /// target file of anything else.
    pub open spec fn key(self) -> Seq<char> {
        match self {
            Directive::Patch { file_path, .. } => file_path,
            Directive::Overwrite { file_path, .. } => file_path,
            Directive::Delete { file_path } => file_path,
            Directive::Move { from_path, .. } => from_path,
        }
    }

    /// What holds of every directive that the parser gives out: a patch has at
    /// least one block, and it creates its file exactly when the search text of
    /// its first block is blank; neither path of a move is empty.
    pub open spec fn well_formed(self) -> bool {
        match self {
            Directive::Patch { blocks, is_new_file, .. } => blocks.len() > 0 && (is_new_file
                <==> trim(blocks[0].0).len() == 0),
            Directive::Move { from_path, to_path } => from_path.len() > 0 && to_path.len() > 0,
            _ => true,
        }
    }
}

/// The five command words.
#[derive(Clone, Copy, Debug, PartialEq, Eq)]
pub enum Command {
    Create,
    Overwrite,
    Patch,
    Delete,
    Move,
}

impl Command {
    /// The word as it is written in upper case.
    pub open spec fn keyword(self) -> Seq<char> {
        match self {
            Command::Create => "CREATE"@,
            Command::Overwrite => "OVERWRITE"@,
            Command::Patch => "PATCH"@,
            Command::Delete => "DELETE"@,
            Command::Move => "MOVE"@,
        }
    }

    /// A standalone command needs no fenced payload.
    pub open spec fn is_standalone(self) -> bool {
        self is Delete || self is Move
    }

    pub fn keyword_chars(&self) -> (r: Vec<char>)
        ensures
            r@ == self.keyword(),
    {
        match self {
            Command::Create => to_chars("CREATE"),
            Command::Overwrite => to_chars("OVERWRITE"),
            Command::Patch => to_chars("PATCH"),
            Command::Delete => to_chars("DELETE"),
            Command::Move => to_chars("MOVE"),
        }
    }

    pub fn standalone(&self) -> (r: bool)
        ensures
            r == self.is_standalone(),
    {
        match self {
            Command::Delete => true,
            Command::Move => true,
            _ => false,
        }
    }
}

/// Whether `line` begins with the word of `cmd`, in any mix of cases.
pub open spec fn begins_with_word(line: Seq<char>, cmd: Command) -> bool {
    occurs_at_ignore_case(line, cmd.keyword(), 0)
}

/// The command word that `line` begins with, if any.
pub open spec fn command_word(line: Seq<char>) -> Option<Command> {
    if begins_with_word(line, Command::Create) {
        Some(Command::Create)
    } else if begins_with_word(line, Command::Overwrite) {
        Some(Command::Overwrite)
    } else if begins_with_word(line, Command::Patch) {
        Some(Command::Patch)
    } else if begins_with_word(line, Command::Delete) {
        Some(Command::Delete)
    } else if begins_with_word(line, Command::Move) {
        Some(Command::Move)
    } else {
        None
    }
}

/// A command header is a command word, at least one white-space character, and
/// the rest of the line; its argument is that rest without surrounding white space.
pub open spec fn command_header(line: Seq<char>) -> Option<(Command, Seq<char>)> {
    match command_word(line) {
        Some(cmd) => {
            let n = cmd.keyword().len() as int;
            if n < line.len() && is_whitespace(line[n]) {
                Some((cmd, trim(line.skip(n))))
            } else {
                None
            }
        },
        None => None,
    }
}

/// Executable `command_word`.
pub fn parse_command_word(line: &Vec<char>) -> (r: Option<Command>)
    ensures
        r == command_word(line@),
{
    if match_at_ignore_case(line, &Command::Create.keyword_chars(), 0) {
        Some(Command::Create)
    } else if match_at_ignore_case(line, &Command::Overwrite.keyword_chars(), 0) {
        Some(Command::Overwrite)
    } else if match_at_ignore_case(line, &Command::Patch.keyword_chars(), 0) {
        Some(Command::Patch)
    } else if match_at_ignore_case(line, &Command::Delete.keyword_chars(), 0) {
        Some(Command::Delete)
    } else if match_at_ignore_case(line, &Command::Move.keyword_chars(), 0) {
        Some(Command::Move)
    } else {
        None
    }
}

/// Executable `command_header`.
pub fn parse_command_line(line: &Vec<char>) -> (r: Option<(Command, Vec<char>)>)
    ensures
        match r {
            Some((cmd, args)) => command_header(line@) == Some((cmd, args@)),
            None => command_header(line@) is None,
        },
{
    match parse_command_word(line) {
        Some(cmd) => {
            let n: usize = cmd.keyword_chars().len();
            if n < line.len() && CharClass::Whitespace.has(line[n]) {
                let rest = slice_of(line, n, line.len());
                assert(rest@ =~= line@.skip(n as int));
                Some((cmd, trim_chars(&rest)))
            } else {
                None
            }
        },
        None => None,
    }
}

/// A path argument without surrounding white space and then without
/// surrounding backticks and quotes.
pub open spec fn sanitize(path: Seq<char>) -> Seq<char> {
    trim_of(trim(path), CharClass::Quote)
}

/// Executable `sanitize`.
pub fn sanitize_chars(path: &Vec<char>) -> (r: Vec<char>)
    ensures
        r@ == sanitize(path@),
{
    let inner = trim_chars(path);
    trim_class(&inner, CharClass::Quote)
}

/// Cleans a path argument: surrounding white space goes, then surrounding
/// backticks, single quotes and double quotes.
pub fn sanitize_path(path: &str) -> (r: String)
    ensures
        r@ == sanitize(path@),
{
    let chars = to_chars(path);
    let clean = sanitize_chars(&chars);
    from_chars(&clean)
}

/// The word that parts the two paths of a move, with the blanks around it.
pub open spec fn move_separator() -> Seq<char> {
    " to "@
}

/// The source path that a move argument names: what stands before the last
/// separator, or the whole argument where there is no separator.
pub open spec fn move_source(args: Seq<char>) -> Seq<char> {
    match rfind_ignore_case(args, move_separator()) {
        Some(i) => sanitize(args.take(i)),
        None => sanitize(args),
    }
}

/// The two paths of a move argument: what stands before and after the last
/// separator. There is none where the separator is missing or a path is empty.
pub open spec fn move_paths(args: Seq<char>) -> Option<(Seq<char>, Seq<char>)> {
    match rfind_ignore_case(args, move_separator()) {
        Some(i) => {
            let from = sanitize(args.take(i));
            let to = sanitize(args.skip(i + move_separator().len()));
            if from.len() > 0 && to.len() > 0 {
                Some((from, to))
            } else {
                None
            }
        },
        None => None,
    }
}

/// Executable `move_source`.
pub fn parse_move_source(args: &Vec<char>) -> (r: Vec<char>)
    ensures
        r@ == move_source(args@),
{
    let sep = to_chars(" to ");
    match rfind_index_ignore_case(args, &sep) {
        Some(i) => {
            let head = slice_of(args, 0, i);
            assert(head@ =~= args@.take(i as int));
            sanitize_chars(&head)
        },
        None => sanitize_chars(args),
    }
}

/// Executable `move_paths`.
pub fn parse_move_paths(args: &Vec<char>) -> (r: Option<(Vec<char>, Vec<char>)>)
    ensures
        match r {
            Some((from, to)) => move_paths(args@) == Some((from@, to@)),
            None => move_paths(args@) is None,
        },
{
    let sep = to_chars(" to ");
    match rfind_index_ignore_case(args, &sep) {
        Some(i) => {
            let head = slice_of(args, 0, i);
            let tail = slice_of(args, i + sep.len(), args.len());
            assert(head@ =~= args@.take(i as int));
            assert(tail@ =~= args@.skip(i + sep.len()));
            let from = sanitize_chars(&head);
            let to = sanitize_chars(&tail);
            if from.len() > 0 && to.len() > 0 {
                Some((from, to))
            } else {
                None
            }
        },
        None => None,
    }
}

/// The line that opens the search side of a block.
pub open spec fn search_marker() -> Seq<char> {
    "<<<<<<< SEARCH"@
}

/// The line that parts the search side of a block from its replace side.
pub open spec fn divider_marker() -> Seq<char> {
    "======="@
}

/// The line that closes a block.
pub open spec fn replace_marker() -> Seq<char> {
    ">>>>>>> REPLACE"@
}

/// The length of the line ending that stands in `text` at `at`: a line feed,
/// or a carriage return and a line feed.
pub open spec fn line_ending_at(text: Seq<char>, at: int) -> Option<int> {
    if 0 <= at < text.len() && text[at] == '\n' {
        Some(1)
    } else if 0 <= at && at + 1 < text.len() && text[at] == '\r' && text[at + 1] == '\n' {
        Some(2)
    } else {
        None
    }
}

/// The first `marker` at or after `from`, if a line ending follows it: where
/// the marker begins, and where the text after the line ending begins.
pub open spec fn marker_line(text: Seq<char>, marker: Seq<char>, from: int) -> Option<(int, int)> {
    match find_from(text, marker, from) {
        Some(a) => match line_ending_at(text, a + marker.len()) {
            Some(e) => Some((a, a + marker.len() + e)),
            None => None,
        },
        None => None,
    }
}

/// One side of a block without its final line feed and, after that, without
/// its final carriage return.
pub open spec fn strip_line_end(s: Seq<char>) -> Seq<char> {
    strip_cr(
        if ends_with_char(s, '\n') {
            s.drop_last()
        } else {
            s
        },
    )
}

/// The first complete block at or after `from`, with the index just behind it.
/// The search marker that is found first decides: where its block is not
/// complete, there is no block.
pub open spec fn first_block(text: Seq<char>, from: int) -> Option<
    ((Seq<char>, Seq<char>), int),
> {
    match marker_line(text, search_marker(), from) {
        Some((_, s0)) => match marker_line(text, divider_marker(), s0) {
            Some((b, r0)) => match find_from(text, replace_marker(), r0) {
                Some(c) => Some(
                    (
                        (
                            strip_line_end(text.subrange(s0, b)),
                            strip_line_end(text.subrange(r0, c)),
                        ),
                        c + replace_marker().len(),
                    ),
                ),
                None => None,
            },
            None => None,
        },
        None => None,
    }
}

/// A block ends behind the place where the search for it began.
pub proof fn lemma_first_block_advances(text: Seq<char>, from: int)
    requires
        0 <= from,
    ensures
        first_block(text, from) matches Some((_, end)) ==> from < end <= text.len(),
{
    lemma_find_from(text, search_marker(), from);
    if let Some((_, s0)) = marker_line(text, search_marker(), from) {
        lemma_find_from(text, divider_marker(), s0);
        if let Some((_, r0)) = marker_line(text, divider_marker(), s0) {
            lemma_find_from(text, replace_marker(), r0);
        }
    }
}

/// The blocks of `text` from `from` on: one complete block after another, up
/// to the first search marker that opens no complete block.
pub open spec fn blocks_from(text: Seq<char>, from: int) -> Seq<(Seq<char>, Seq<char>)>
    decreases text.len() - from,
{
    if from < 0 {
        seq![]
    } else {
        match first_block(text, from) {
            Some((block, end)) => {
                proof {
                    lemma_first_block_advances(text, from);
                }
                seq![block] + blocks_from(text, end)
            },
            None => seq![],
        }
    }
}

/// The search/replace blocks of a patch payload.
pub open spec fn patch_blocks(text: Seq<char>) -> Seq<(Seq<char>, Seq<char>)> {
    blocks_from(text, 0)
}

/// The views of a vector of pairs of character vectors.
pub open spec fn pair_views(v: Seq<(Vec<char>, Vec<char>)>) -> Seq<(Seq<char>, Seq<char>)> {
    Seq::new(v.len(), |i: int| (v[i].0@, v[i].1@))
}

/// Executable `marker_line`.
pub fn find_marker_line(text: &Vec<char>, marker: &Vec<char>, from: usize) -> (r: Option<
    (usize, usize),
>)
    ensures
        match r {
            Some((a, next)) => marker_line(text@, marker@, from as int) == Some(
                (a as int, next as int),
            ) && from <= a <= next <= text.len(),
            None => marker_line(text@, marker@, from as int) is None,
        },
{
    match find_index_from(text, marker, from) {
        Some(a) => {
            let at: usize = a + marker.len();
            if at < text.len() && text[at] == '\n' {
                Some((a, at + 1))
            } else if at < text.len() && at + 1 < text.len() && text[at] == '\r' && text[at + 1]
                == '\n' {
                Some((a, at + 2))
            } else {
                None
            }
        },
        None => None,
    }
}

/// Executable `strip_line_end` of `text[from..to]`.
pub fn strip_line_end_chars(text: &Vec<char>, from: usize, to: usize) -> (r: Vec<char>)
    requires
        from <= to <= text.len(),
    ensures
        r@ == strip_line_end(text@.subrange(from as int, to as int)),
{
    let ghost s = text@.subrange(from as int, to as int);
    if to > from && text[to - 1] == '\n' {
        let inner = slice_of(text, from, to - 1);
        assert(inner@ =~= s.drop_last());
        strip_cr_chars(&inner)
    } else {
        let inner = slice_of(text, from, to);
        strip_cr_chars(&inner)
    }
}

/// Reads the first complete block at or after `from`: its two sides and the
/// index just behind it.
pub fn parse_search_replace_block(text: &Vec<char>, from: usize) -> (r: Option<
    ((Vec<char>, Vec<char>), usize),
>)
    ensures
        match r {
            Some(((search, replace), end)) => first_block(text@, from as int) == Some(
                ((search@, replace@), end as int),
            ) && from < end <= text.len(),
            None => first_block(text@, from as int) is None,
        },
{
    let opening = to_chars("<<<<<<< SEARCH");
    let divider = to_chars("=======");
    let closing = to_chars(">>>>>>> REPLACE");
    proof {
        lemma_first_block_advances(text@, from as int);
    }
    match find_marker_line(text, &opening, from) {
        Some((_, s0)) => match find_marker_line(text, &divider, s0) {
            Some((b, r0)) => match find_index_from(text, &closing, r0) {
                Some(c) => {
                    let search = strip_line_end_chars(text, s0, b);
                    let replace = strip_line_end_chars(text, r0, c);
                    Some(((search, replace), c + closing.len()))
                },
                None => None,
            },
            None => None,
        },
        None => None,
    }
}

/// Reads every block of a patch payload, in order.
pub fn parse_all_search_replace_blocks(text: &Vec<char>) -> (r: Vec<(Vec<char>, Vec<char>)>)
    ensures
        pair_views(r@) == patch_blocks(text@),
{
    let mut out: Vec<(Vec<char>, Vec<char>)> = Vec::new();
    let mut pos: usize = 0;
    assert(pair_views(out@) + blocks_from(text@, 0) =~= blocks_from(text@, 0));
    loop
        invariant_except_break
            pos <= text.len(),
            patch_blocks(text@) == pair_views(out@) + blocks_from(text@, pos as int),
        ensures
            pair_views(out@) == patch_blocks(text@),
        decreases text.len() - pos,
    {
        match parse_search_replace_block(text, pos) {
            Some((block, end)) => {
                let ghost before = out@;
                let ghost b = (block.0@, block.1@);
                out.push(block);
                assert(pair_views(out@) =~= pair_views(before).push(b));
                assert(pair_views(out@) + blocks_from(text@, end as int) =~= pair_views(before)
                    + (seq![b] + blocks_from(text@, end as int)));
                pos = end;
            },
            None => {
                assert(pair_views(out@) + blocks_from(text@, pos as int) =~= pair_views(out@));
                break;
            },
        }
    }
    out
}

/// The directive that a command makes of its argument and its payload, if it
/// makes one. A move needs two paths; a patch needs at least one block, and
/// creates its file exactly when the search text of its first block is blank.
pub open spec fn build_directive(cmd: Command, args: Seq<char>, content: Seq<char>) -> Option<
    Directive,
> {
    match cmd {
        Command::Delete => Some(Directive::Delete { file_path: sanitize(args) }),
        Command::Move => match move_paths(args) {
            Some((from_path, to_path)) => Some(Directive::Move { from_path, to_path }),
            None => None,
        },
        Command::Create => Some(
            Directive::Overwrite { file_path: sanitize(args), content, is_new_file: true },
        ),
        Command::Overwrite => Some(
            Directive::Overwrite { file_path: sanitize(args), content, is_new_file: false },
        ),
        Command::Patch => {
            let blocks = patch_blocks(content);
            if blocks.len() > 0 {
                Some(
                    Directive::Patch {
                        file_path: sanitize(args),
                        blocks,
                        is_new_file: trim(blocks[0].0).len() == 0,
                    },
                )
            } else {
                None
            }
        },
    }
}

/// The pairs of `blocks` as strings.
pub fn blocks_to_strings(blocks: &Vec<(Vec<char>, Vec<char>)>) -> (r: Vec<(String, String)>)
    ensures
        block_views(r@) == pair_views(blocks@),
{
    let mut out: Vec<(String, String)> = Vec::new();
    let mut i: usize = 0;
    while i < blocks.len()
        invariant
            i <= blocks.len(),
            out.len() == i,
            forall|j: int|
                0 <= j < i ==> (#[trigger] out@[j]).0@ == blocks@[j].0@ && out@[j].1@
                    == blocks@[j].1@,
        decreases blocks.len() - i,
    {
        let search = from_chars(&blocks[i].0);
        let replace = from_chars(&blocks[i].1);
        out.push((search, replace));
        i += 1;
    }
    assert(block_views(out@) =~= pair_views(blocks@));
    out
}

/// Executable `build_directive`.
pub fn build_operation(cmd: Command, args: &Vec<char>, content: &Vec<char>) -> (r: Option<
    IntermediateOperation,
>)
    ensures
        match r {
            Some(op) => build_directive(cmd, args@, content@) == Some(op@),
            None => build_directive(cmd, args@, content@) is None,
        },
{
    match cmd {
        Command::Delete => {
            let path = sanitize_chars(args);
            Some(IntermediateOperation::Delete { file_path: from_chars(&path) })
        },
        Command::Move => match parse_move_paths(args) {
            Some((from, to)) => Some(
                IntermediateOperation::Move {
                    from_path: from_chars(&from),
                    to_path: from_chars(&to),
                },
            ),
            None => None,
        },
        Command::Create => {
            let path = sanitize_chars(args);
            Some(
                IntermediateOperation::Overwrite {
                    file_path: from_chars(&path),
                    content: from_chars(content),
                    is_new_file: true,
                },
            )
        },
        Command::Overwrite => {
            let path = sanitize_chars(args);
            Some(
                IntermediateOperation::Overwrite {
                    file_path: from_chars(&path),
                    content: from_chars(content),
                    is_new_file: false,
                },
            )
        },
        Command::Patch => {
            let blocks = parse_all_search_replace_blocks(content);
            if blocks.len() > 0 {
                let first_search = trim_chars(&blocks[0].0);
                let is_new_file = first_search.len() == 0;
                let path = sanitize_chars(args);
                assert(patch_blocks(content@)[0] == (blocks@[0].0@, blocks@[0].1@));
                Some(
                    IntermediateOperation::Patch {
                        file_path: from_chars(&path),
                        search_replace_blocks: blocks_to_strings(&blocks),
                        is_new_file,
                    },
                )
            } else {
                None
            }
        },
    }
}

/// The marker of a fenced code block.
pub open spec fn fence_marker() -> Seq<char> {
    "```"@
}

/// A fence line is a line that begins, after white space, with the fence marker.
pub open spec fn is_fence(line: Seq<char>) -> bool {
    starts_with(trim(line), fence_marker())
}

/// What a fence line holds behind the marker, without surrounding white space:
/// its language tag.
pub open spec fn fence_tag(line: Seq<char>) -> Seq<char> {
    trim(trim(line).skip(fence_marker().len() as int))
}

/// What a line is to the fence tracking.
#[derive(Clone, Copy, Debug, PartialEq, Eq)]
pub enum FenceKind {
    /// Not a fence line.
    Text,
    /// A fence line with a language tag.
    Tagged,
    /// A fence line without one.
    Bare,
}

pub open spec fn fence_kind(line: Seq<char>) -> FenceKind {
    if !is_fence(line) {
        FenceKind::Text
    } else if fence_tag(line).len() > 0 {
        FenceKind::Tagged
    } else {
        FenceKind::Bare
    }
}

/// Executable `fence_kind`.
pub fn classify_fence(line: &Vec<char>) -> (r: FenceKind)
    ensures
        r == fence_kind(line@),
{
    let marker = to_chars("```");
    let trimmed = trim_chars(line);
    if match_at(&trimmed, &marker, 0) {
        let rest = slice_of(&trimmed, marker.len(), trimmed.len());
        assert(rest@ =~= trimmed@.skip(marker.len() as int));
        let tag = trim_chars(&rest);
        if tag.len() > 0 {
            FenceKind::Tagged
        } else {
            FenceKind::Bare
        }
    } else {
        FenceKind::Text
    }
}

/// Where the scan of a document stands after some of its lines.
pub struct ScanState {
    /// The payload-bearing command that waits for its fenced block, or whose
    /// block is being collected: the command and its argument.
    pub pending: Option<(Command, Seq<char>)>,
    /// How deep the scan is inside fenced blocks; 0 outside a payload.
    pub nesting: nat,
    /// The lines of the payload collected so far.
    pub collected: Seq<Seq<char>>,
    /// The directives found so far, in the order in which they were completed.
    pub found: Seq<Directive>,
}

/// The line feed, as a sequence of one character.
pub open spec fn line_feed() -> Seq<char> {
    seq!['\n']
}

/// `found` with the directive of `cmd`, where it makes one.
pub open spec fn with_directive(
    found: Seq<Directive>,
    cmd: Command,
    args: Seq<char>,
    content: Seq<char>,
) -> Seq<Directive> {
    match build_directive(cmd, args, content) {
        Some(d) => found.push(d),
        None => found,
    }
}

/// The state when a payload closes: the pending command makes its directive
/// of the collected lines, joined by line feeds.
pub open spec fn close_payload(st: ScanState) -> ScanState {
    ScanState {
        pending: None,
        nesting: 0,
        collected: seq![],
        found: match st.pending {
            Some((cmd, args)) => with_directive(
                st.found,
                cmd,
                args,
                join(st.collected, line_feed()),
            ),
            None => st.found,
        },
    }
}

/// One line inside a payload. A tagged fence line goes one level deeper, a
/// bare one comes one level back. The line that brings the depth to 0 closes
/// the payload and is not part of it; any other line is collected.
pub open spec fn step_inside(st: ScanState, line: Seq<char>) -> ScanState {
    let nesting: int = match fence_kind(line) {
        FenceKind::Text => st.nesting as int,
        FenceKind::Tagged => st.nesting as int + 1,
        FenceKind::Bare => st.nesting as int - 1,
    };
    if nesting <= 0 {
        close_payload(st)
    } else {
        ScanState { nesting: nesting as nat, collected: st.collected.push(strip_cr(line)), ..st }
    }
}

/// One line outside a payload. A fence line opens the payload of the pending
/// command, if one is pending. A command header ends whatever was pending: a
/// standalone command makes its directive at once, a payload-bearing one
/// is pending from here on. Any other line changes nothing.
pub open spec fn step_outside(st: ScanState, line: Seq<char>) -> ScanState {
    if is_fence(line) {
        if st.pending is Some {
            ScanState { nesting: 1, ..st }
        } else {
            st
        }
    } else {
        match command_header(line) {
            Some((cmd, args)) => if cmd.is_standalone() {
                ScanState {
                    pending: None,
                    found: with_directive(st.found, cmd, args, seq![]),
                    ..st
                }
            } else {
                ScanState { pending: Some((cmd, args)), ..st }
            },
            None => st,
        }
    }
}

/// The state after one more line.
pub open spec fn scan_step(st: ScanState, line: Seq<char>) -> ScanState {
    if st.nesting > 0 {
        step_inside(st, line)
    } else {
        step_outside(st, line)
    }
}

/// The state after the given lines, from the beginning of a document.
pub open spec fn scan(lines: Seq<Seq<char>>) -> ScanState
    decreases lines.len(),
{
    if lines.len() == 0 {
        ScanState { pending: None, nesting: 0, collected: seq![], found: seq![] }
    } else {
        scan_step(scan(lines.drop_last()), lines.last())
    }
}

/// The view of a pending command.
pub open spec fn pending_view(p: Option<(Command, Vec<char>)>) -> Option<(Command, Seq<char>)> {
    match p {
        Some((cmd, args)) => Some((cmd, args@)),
        None => None,
    }
}

/// Every directive that the lines hold, in the order in which each was
/// completed; two of them may have the same key.
pub fn collect_operations(lines: &Vec<Vec<char>>) -> (r: Vec<IntermediateOperation>)
    ensures
        directive_views(r@) == scan(views(lines@)).found,
{
    let mut found: Vec<IntermediateOperation> = Vec::new();
    let mut pending: Option<(Command, Vec<char>)> = None;
    let mut collected: Vec<Vec<char>> = Vec::new();
    let mut nesting: usize = 0;
    let newline: Vec<char> = vec!['\n'];
    let empty: Vec<char> = Vec::new();
    let ghost all = views(lines@);
    let mut i: usize = 0;
    assert(directive_views(found@) =~= scan(all.take(0)).found);
    assert(views(collected@) =~= scan(all.take(0)).collected);
    while i < lines.len()
        invariant
            i <= lines.len(),
            all == views(lines@),
            newline@ == line_feed(),
            empty@ == Seq::<char>::empty(),
            nesting <= i,
            nesting == scan(all.take(i as int)).nesting,
            pending_view(pending) == scan(all.take(i as int)).pending,
            views(collected@) == scan(all.take(i as int)).collected,
            directive_views(found@) == scan(all.take(i as int)).found,
        decreases lines.len() - i,
    {
        let line = &lines[i];
        let ghost st = scan(all.take(i as int));
        proof {
            assert(all.take(i + 1).drop_last() =~= all.take(i as int));
            assert(all.take(i + 1).last() == line@);
            assert(scan(all.take(i + 1)) == scan_step(st, line@));
        }
        let kind = classify_fence(line);
        if nesting > 0 {
            match kind {
                FenceKind::Text => {},
                FenceKind::Tagged => {
                    nesting += 1;
                },
                FenceKind::Bare => {
                    nesting -= 1;
                },
            }
            if nesting == 0 {
                if let Some((cmd, args)) = &pending {
                    let content = join_range(&collected, 0, collected.len(), &newline);
                    assert(views(collected@).subrange(0, collected.len() as int) =~= views(
                        collected@,
                    ));
                    if let Some(op) = build_operation(*cmd, args, &content) {
                        let ghost before = found@;
                        found.push(op);
                        assert(directive_views(found@) =~= directive_views(before).push(op@));
                    }
                }
                pending = None;
                collected = Vec::new();
                assert(views(collected@) =~= Seq::<Seq<char>>::empty());
            } else {
                let kept = strip_cr_chars(line);
                proof {
                    lemma_views_push(collected@, kept);
                }
                collected.push(kept);
            }
        } else {
            match kind {
                FenceKind::Text => {
                    if let Some((cmd, args)) = parse_command_line(line) {
                        if cmd.standalone() {
                            if let Some(op) = build_operation(cmd, &args, &empty) {
                                let ghost before = found@;
                                found.push(op);
                                assert(directive_views(found@) =~= directive_views(before).push(
                                    op@,
                                ));
                            }
                            pending = None;
                        } else {
                            pending = Some((cmd, args));
                        }
                    }
                },
                _ => {
                    if pending.is_some() {
                        nesting = 1;
                    }
                },
            }
        }
        i += 1;
    }
    assert(all.take(lines.len() as int) =~= all);
    found
}

/// The key that a command header announces: the source path of a move, the
/// path argument of any other command.
pub open spec fn header_key(line: Seq<char>) -> Option<Seq<char>> {
    match command_header(line) {
        Some((cmd, args)) => Some(
            if cmd is Move {
                move_source(args)
            } else {
                sanitize(args)
            },
        ),
        None => None,
    }
}

/// The keys that the command headers among `lines` announce, in order.
pub open spec fn header_keys(lines: Seq<Seq<char>>) -> Seq<Seq<char>>
    decreases lines.len(),
{
    if lines.len() == 0 {
        seq![]
    } else {
        match header_key(lines.last()) {
            Some(k) => header_keys(lines.drop_last()).push(k),
            None => header_keys(lines.drop_last()),
        }
    }
}

/// The index, not below `from`, of the first directive with the given key.
pub open spec fn first_with_key_from(ds: Seq<Directive>, key: Seq<char>, from: int) -> Option<int>
    decreases ds.len() - from,
{
    if from < 0 || from >= ds.len() {
        None
    } else if ds[from].key() == key {
        Some(from)
    } else {
        first_with_key_from(ds, key, from + 1)
    }
}

/// The index of the first directive with the given key.
pub open spec fn first_with_key(ds: Seq<Directive>, key: Seq<char>) -> Option<int> {
    first_with_key_from(ds, key, 0)
}

/// The directives that survive: for each key of `keys`, where it stands there
/// for the first time, the first directive of `ds` with that key, if there is one.
pub open spec fn select(ds: Seq<Directive>, keys: Seq<Seq<char>>) -> Seq<Directive>
    decreases keys.len(),
{
    if keys.len() == 0 {
        seq![]
    } else {
        let earlier = keys.drop_last();
        let chosen = select(ds, earlier);
        if earlier.contains(keys.last()) {
            chosen
        } else {
            match first_with_key(ds, keys.last()) {
                Some(i) => chosen.push(ds[i]),
                None => chosen,
            }
        }
    }
}

/// What a document means: of the directives that its lines hold, the first
/// for each key, in the order in which the command headers of the document
/// first announce those keys.
pub open spec fn parse_document(doc: Seq<char>) -> Seq<Directive> {
    let ls = lines(doc);
    select(scan(ls).found, header_keys(ls))
}

/// The views of a vector of strings.
pub open spec fn string_views(v: Seq<String>) -> Seq<Seq<char>> {
    Seq::new(v.len(), |i: int| v[i]@)
}

/// The keys that the command headers among `lines` announce, in order.
pub fn collect_header_keys(lines: &Vec<Vec<char>>) -> (r: Vec<String>)
    ensures
        string_views(r@) == header_keys(views(lines@)),
{
    let mut keys: Vec<String> = Vec::new();
    let ghost all = views(lines@);
    let mut i: usize = 0;
    assert(string_views(keys@) =~= header_keys(all.take(0)));
    while i < lines.len()
        invariant
            i <= lines.len(),
            all == views(lines@),
            string_views(keys@) == header_keys(all.take(i as int)),
        decreases lines.len() - i,
    {
        let line = &lines[i];
        proof {
            assert(all.take(i + 1).drop_last() =~= all.take(i as int));
            assert(all.take(i + 1).last() == line@);
        }
        if let Some((cmd, args)) = parse_command_line(line) {
            let key = match cmd {
                Command::Move => parse_move_source(&args),
                _ => sanitize_chars(&args),
            };
            let ghost before = keys@;
            let text = from_chars(&key);
            keys.push(text);
            assert(string_views(keys@) =~= string_views(before).push(key@));
        }
        i += 1;
    }
    assert(all.take(lines.len() as int) =~= all);
    keys
}

/// Whether two strings hold the same characters.
pub fn same_string(a: &String, b: &String) -> (r: bool)
    ensures
        r == (a@ == b@),
{
    *a == *b
}

/// The key of an operation.
pub fn operation_key(op: &IntermediateOperation) -> (r: &String)
    ensures
        r@ == op@.key(),
{
    match op {
        IntermediateOperation::Patch { file_path, .. } => file_path,
        IntermediateOperation::Overwrite { file_path, .. } => file_path,
        IntermediateOperation::Delete { file_path } => file_path,
        IntermediateOperation::Move { from_path, .. } => from_path,
    }
}

/// Executable `first_with_key`.
pub fn find_operation(ops: &Vec<IntermediateOperation>, key: &String) -> (r: Option<usize>)
    ensures
        match r {
            Some(i) => first_with_key(directive_views(ops@), key@) == Some(i as int) && i
                < ops.len(),
            None => first_with_key(directive_views(ops@), key@) is None,
        },
{
    let ghost ds = directive_views(ops@);
    let mut i: usize = 0;
    while i < ops.len()
        invariant
            i <= ops.len(),
            ds == directive_views(ops@),
            first_with_key(ds, key@) == first_with_key_from(ds, key@, i as int),
        decreases ops.len() - i,
    {
        assert(ds[i as int] == ops@[i as int]@);
        if same_string(operation_key(&ops[i]), key) {
            return Some(i);
        }
        i += 1;
    }
    None
}

/// Whether `key` stands among the first `n` of `keys`.
pub fn key_among(keys: &Vec<String>, n: usize, key: &String) -> (r: bool)
    requires
        n <= keys.len(),
    ensures
        r == string_views(keys@).take(n as int).contains(key@),
{
    let ghost ks = string_views(keys@).take(n as int);
    let mut i: usize = 0;
    while i < n
        invariant
            i <= n <= keys.len(),
            ks == string_views(keys@).take(n as int),
            forall|j: int| 0 <= j < i ==> ks[j] != key@,
        decreases n - i,
    {
        assert(ks[i as int] == keys@[i as int]@);
        if same_string(&keys[i], key) {
            return true;
        }
        i += 1;
    }
    false
}

/// A copy of a vector of search/replace pairs.
pub fn clone_blocks(blocks: &Vec<(String, String)>) -> (r: Vec<(String, String)>)
    ensures
        block_views(r@) == block_views(blocks@),
{
    let mut out: Vec<(String, String)> = Vec::new();
    let mut i: usize = 0;
    while i < blocks.len()
        invariant
            i <= blocks.len(),
            out.len() == i,
            forall|j: int|
                0 <= j < i ==> (#[trigger] out@[j]).0@ == blocks@[j].0@ && out@[j].1@
                    == blocks@[j].1@,
        decreases blocks.len() - i,
    {
        out.push((blocks[i].0.clone(), blocks[i].1.clone()));
        i += 1;
    }
    assert(block_views(out@) =~= block_views(blocks@));
    out
}

/// A copy of an operation.
pub fn clone_operation(op: &IntermediateOperation) -> (r: IntermediateOperation)
    ensures
        r@ == op@,
{
    match op {
        IntermediateOperation::Patch { file_path, search_replace_blocks, is_new_file } => {
            IntermediateOperation::Patch {
                file_path: file_path.clone(),
                search_replace_blocks: clone_blocks(search_replace_blocks),
                is_new_file: *is_new_file,
            }
        },
        IntermediateOperation::Overwrite { file_path, content, is_new_file } => {
            IntermediateOperation::Overwrite {
                file_path: file_path.clone(),
                content: content.clone(),
                is_new_file: *is_new_file,
            }
        },
        IntermediateOperation::Delete { file_path } => IntermediateOperation::Delete {
            file_path: file_path.clone(),
        },
        IntermediateOperation::Move { from_path, to_path } => IntermediateOperation::Move {
            from_path: from_path.clone(),
            to_path: to_path.clone(),
        },
    }
}

/// Executable `select`.
pub fn select_operations(ops: &Vec<IntermediateOperation>, keys: &Vec<String>) -> (r: Vec<
    IntermediateOperation,
>)
    ensures
        directive_views(r@) == select(directive_views(ops@), string_views(keys@)),
{
    let ghost ds = directive_views(ops@);
    let ghost ks = string_views(keys@);
    let mut out: Vec<IntermediateOperation> = Vec::new();
    let mut i: usize = 0;
    assert(directive_views(out@) =~= select(ds, ks.take(0)));
    while i < keys.len()
        invariant
            i <= keys.len(),
            ds == directive_views(ops@),
            ks == string_views(keys@),
            directive_views(out@) == select(ds, ks.take(i as int)),
        decreases keys.len() - i,
    {
        proof {
            assert(ks.take(i + 1).drop_last() =~= ks.take(i as int));
            assert(ks.take(i + 1).last() == keys@[i as int]@);
        }
        if !key_among(keys, i, &keys[i]) {
            if let Some(j) = find_operation(ops, &keys[i]) {
                let ghost before = out@;
                let op = clone_operation(&ops[j]);
                out.push(op);
                assert(ds[j as int] == ops@[j as int]@);
                assert(directive_views(out@) =~= directive_views(before).push(op@));
            }
        }
        i += 1;
    }
    assert(ks.take(keys.len() as int) =~= ks);
    out
}

/// A parser for one document.
pub struct MarkdownParser {
    markdown: String,
}

impl MarkdownParser {
    /// The text of the document.
    pub closed spec fn document(&self) -> Seq<char> {
        self.markdown@
    }

    /// A parser for the given document.
    pub fn new(markdown: &str) -> (r: Self)
        ensures
            r.document() == markdown@,
    {
        MarkdownParser { markdown: markdown.to_owned() }
    }

    /// Every directive that the document holds, in the order in which each
    /// was completed; two of them may have the same key.
    pub fn parse_command_blocks(&self) -> (r: Vec<IntermediateOperation>)
        ensures
            directive_views(r@) == scan(lines(self.document())).found,
    {
        let chars = to_chars(self.markdown.as_str());
        let ls = lines_of(&chars);
        collect_operations(&ls)
    }

    /// The directive that `command` makes of its argument and its payload.
    pub fn process_command_block(&self, command: Command, args: &str, content: &str) -> (r: Option<
        IntermediateOperation,
    >)
        ensures
            match r {
                Some(op) => build_directive(command, args@, content@) == Some(op@),
                None => build_directive(command, args@, content@) is None,
            },
    {
        let a = to_chars(args);
        let c = to_chars(content);
        build_operation(command, &a, &c)
    }

    /// The directives of the document: at most one for each key, the first
    /// that the document completes, in the order in which the command headers
    /// of the document first announce the keys.
    pub fn run(self) -> (r: Vec<IntermediateOperation>)
        ensures
            directive_views(r@) == parse_document(self.document()),
    {
        let chars = to_chars(self.markdown.as_str());
        let ls = lines_of(&chars);
        let found = collect_operations(&ls);
        let keys = collect_header_keys(&ls);
        select_operations(&found, &keys)
    }
}

/// Reads the directives of a markdown document. Malformed and incomplete
/// commands are left out; nothing makes the parser fail.
pub fn parse(markdown: &str) -> (r: Vec<IntermediateOperation>)
    ensures
        directive_views(r@) == parse_document(markdown@),
{
    MarkdownParser::new(markdown).run()
}

/// What `first_with_key_from` returns is the first directive with the key,
/// and `None` means there is none.
pub proof fn lemma_first_with_key_from(ds: Seq<Directive>, key: Seq<char>, from: int)
    requires
        0 <= from,
    ensures
        match first_with_key_from(ds, key, from) {
            Some(i) => from <= i < ds.len() && ds[i].key() == key && forall|j: int|
                from <= j < i ==> ds[j].key() != key,
            None => forall|j: int| from <= j < ds.len() ==> ds[j].key() != key,
        },
    decreases ds.len() - from,
{
    if from >= ds.len() {
    } else if ds[from].key() == key {
    } else {
        lemma_first_with_key_from(ds, key, from + 1);
    }
}

/// Each directive that `select` gives out is the first of `ds` with its key,
/// its key stands in `keys`, and no two of them have the same key.
pub proof fn lemma_select(ds: Seq<Directive>, keys: Seq<Seq<char>>)
    ensures
        forall|a: int|
            0 <= a < select(ds, keys).len() ==> keys.contains(
                (#[trigger] select(ds, keys)[a]).key(),
            ) && first_with_key(ds, select(ds, keys)[a].key()) is Some && ds[first_with_key(
                ds,
                select(ds, keys)[a].key(),
            )->0] == select(ds, keys)[a],
        forall|a: int, b: int|
            0 <= a < b < select(ds, keys).len() ==> select(ds, keys)[a].key() != select(
                ds,
                keys,
            )[b].key(),
    decreases keys.len(),
{
    if keys.len() > 0 {
        let earlier = keys.drop_last();
        let k = keys.last();
        let chosen = select(ds, earlier);
        lemma_select(ds, earlier);
        lemma_first_with_key_from(ds, k, 0);
        let out = select(ds, keys);
        assert forall|a: int| 0 <= a < out.len() implies keys.contains((#[trigger] out[a]).key())
            && first_with_key(ds, out[a].key()) is Some && ds[first_with_key(
            ds,
            out[a].key(),
        )->0] == out[a] by {
            if a < chosen.len() {
                assert(out[a] == chosen[a]);
                let j = choose|j: int| 0 <= j < earlier.len() && earlier[j] == chosen[a].key();
                assert(keys[j] == chosen[a].key());
            } else {
                assert(keys[keys.len() - 1] == k);
            }
        }
        assert forall|a: int, b: int| 0 <= a < b < out.len() implies out[a].key()
            != out[b].key() by {
            if b < chosen.len() {
                assert(out[a] == chosen[a] && out[b] == chosen[b]);
            } else {
                assert(out[a] == chosen[a]);
                assert(earlier.contains(chosen[a].key()));
            }
        }
    }
}

/// Where a key of `keys` is the key of some directive of `ds`, the first
/// directive with that key is among those that `select` gives out.
pub proof fn lemma_select_keeps(ds: Seq<Directive>, keys: Seq<Seq<char>>, n: int)
    requires
        0 <= n < keys.len(),
        first_with_key(ds, keys[n]) is Some,
    ensures
        select(ds, keys).contains(ds[first_with_key(ds, keys[n])->0]),
    decreases keys.len(),
{
    let earlier = keys.drop_last();
    let chosen = select(ds, earlier);
    let out = select(ds, keys);
    let d = ds[first_with_key(ds, keys[n])->0];
    if n < keys.len() - 1 {
        lemma_select_keeps(ds, earlier, n);
        let a = choose|a: int| 0 <= a < chosen.len() && chosen[a] == d;
        assert(out[a] == d);
    } else if earlier.contains(keys.last()) {
        let m = choose|m: int| 0 <= m < earlier.len() && earlier[m] == keys.last();
        lemma_select_keeps(ds, earlier, m);
        let a = choose|a: int| 0 <= a < chosen.len() && chosen[a] == d;
        assert(out[a] == d);
    } else {
        assert(out[out.len() - 1] == d);
    }
}

/// Every key that a command header among `lines` announces stands in `header_keys`.
pub proof fn lemma_header_keys(lines: Seq<Seq<char>>, n: int)
    requires
        0 <= n < lines.len(),
        header_key(lines[n]) is Some,
    ensures
        header_keys(lines).contains(header_key(lines[n])->0),
    decreases lines.len(),
{
    let head = header_keys(lines.drop_last());
    let all = header_keys(lines);
    let k = header_key(lines[n])->0;
    if n < lines.len() - 1 {
        lemma_header_keys(lines.drop_last(), n);
        let a = choose|a: int| 0 <= a < head.len() && head[a] == k;
        assert(all[a] == k);
    } else {
        assert(all[all.len() - 1] == k);
    }
}

/// A directive that a command makes is well formed, and its key is the key
/// that the command's header announces.
pub proof fn lemma_build_directive(line: Seq<char>, content: Seq<char>)
    requires
        command_header(line) is Some,
    ensures
        ({
            let (cmd, args) = command_header(line)->0;
            build_directive(cmd, args, content) matches Some(d) ==> d.well_formed() && Some(
                d.key(),
            ) == header_key(line)
        }),
{
}

/// Whether some command header among `lines` announces `key`.
pub open spec fn announced(lines: Seq<Seq<char>>, key: Seq<char>) -> bool {
    exists|n: int| 0 <= n < lines.len() && header_key(#[trigger] lines[n]) == Some(key)
}

/// Whether `pending` is the command of some header among `lines`.
pub open spec fn was_read(lines: Seq<Seq<char>>, pending: (Command, Seq<char>)) -> bool {
    exists|n: int| 0 <= n < lines.len() && command_header(#[trigger] lines[n]) == Some(pending)
}

/// Whether what a scan has found and what it holds pending came from the
/// command headers of the lines it has seen.
pub open spec fn scan_grounded(lines: Seq<Seq<char>>, st: ScanState) -> bool {
    &&& forall|a: int|
        0 <= a < st.found.len() ==> (#[trigger] st.found[a]).well_formed() && announced(
            lines,
            st.found[a].key(),
        )
    &&& st.pending is Some ==> was_read(lines, st.pending->0)
}

/// What was announced among some lines is announced among more lines.
pub proof fn lemma_announced_extends(lines: Seq<Seq<char>>, key: Seq<char>)
    requires
        lines.len() > 0,
        announced(lines.drop_last(), key),
    ensures
        announced(lines, key),
{
    let head = lines.drop_last();
    let n = choose|n: int| 0 <= n < head.len() && header_key(#[trigger] head[n]) == Some(key);
    assert(lines[n] == head[n]);
}

/// What a scan finds comes from the command headers of its lines.
pub proof fn lemma_scan_grounded(lines: Seq<Seq<char>>)
    ensures
        scan_grounded(lines, scan(lines)),
    decreases lines.len(),
{
    if lines.len() > 0 {
        let head = lines.drop_last();
        let line = lines.last();
        let before = scan(head);
        let after = scan(lines);
        lemma_scan_grounded(head);
        assert forall|a: int| 0 <= a < before.found.len() implies announced(
            lines,
            (#[trigger] before.found[a]).key(),
        ) by {
            lemma_announced_extends(lines, before.found[a].key());
        }
        if before.pending is Some {
            let n = choose|n: int|
                0 <= n < head.len() && command_header(#[trigger] head[n]) == Some(
                    before.pending->0,
                );
            assert(lines[n] == head[n]);
            assert(was_read(lines, before.pending->0));
            lemma_build_directive(lines[n], join(before.collected, line_feed()));
        }
        if command_header(line) is Some {
            assert(lines[lines.len() - 1] == line);
            lemma_build_directive(line, seq![]);
            assert(was_read(lines, command_header(line)->0));
        }
        assert forall|a: int| 0 <= a < after.found.len() implies (#[trigger] after.found[
            a
        ]).well_formed()
            && announced(lines, after.found[a].key()) by {
            if a < before.found.len() {
                assert(after.found[a] == before.found[a]);
            }
        }
    }
}

/// No two directives of a document have the same key.
pub proof fn law_one_directive_for_each_key(doc: Seq<char>)
    ensures
        forall|a: int, b: int|
            0 <= a < b < parse_document(doc).len() ==> parse_document(doc)[a].key()
                != parse_document(doc)[b].key(),
{
    let ls = lines(doc);
    lemma_select(scan(ls).found, header_keys(ls));
}

/// Whether `d` is the first directive of `found` with its key.
pub open spec fn is_first_with_key(found: Seq<Directive>, d: Directive) -> bool {
    first_with_key(found, d.key()) is Some && found[first_with_key(found, d.key())->0] == d
}

/// The first occurrence wins: each directive of a document is the first with
/// its key among all the directives that the document holds.
pub proof fn law_first_occurrence_wins(doc: Seq<char>)
    ensures
        forall|a: int|
            0 <= a < parse_document(doc).len() ==> is_first_with_key(
                scan(lines(doc)).found,
                #[trigger] parse_document(doc)[a],
            ),
{
    let ls = lines(doc);
    lemma_select(scan(ls).found, header_keys(ls));
}

/// Whether the first directive of `found` with the key of `d` is among `out`.
pub open spec fn key_survives(found: Seq<Directive>, out: Seq<Directive>, d: Directive) -> bool {
    first_with_key(found, d.key()) is Some && out.contains(
        found[first_with_key(found, d.key())->0],
    )
}

/// Nothing but a later directive with the same key is discarded: for each
/// directive that the document holds, the first with its key survives.
pub proof fn law_every_key_survives(doc: Seq<char>)
    ensures
        forall|a: int|
            0 <= a < scan(lines(doc)).found.len() ==> key_survives(
                scan(lines(doc)).found,
                parse_document(doc),
                #[trigger] scan(lines(doc)).found[a],
            ),
{
    let ls = lines(doc);
    let found = scan(ls).found;
    let keys = header_keys(ls);
    lemma_scan_grounded(ls);
    assert forall|a: int| 0 <= a < found.len() implies key_survives(
        found,
        parse_document(doc),
        #[trigger] found[a],
    ) by {
        let key = found[a].key();
        lemma_first_with_key_from(found, key, 0);
        assert(announced(ls, key));
        let n = choose|n: int| 0 <= n < ls.len() && header_key(#[trigger] ls[n]) == Some(key);
        lemma_header_keys(ls, n);
        let m = choose|m: int| 0 <= m < keys.len() && keys[m] == key;
        lemma_select_keeps(found, keys, m);
    }
}

/// Every directive of a document is well formed: a patch has at least one
/// block and creates its file exactly when the search text of its first block
/// is blank, whatever its other blocks hold; a move has two paths.
pub proof fn law_directives_well_formed(doc: Seq<char>)
    ensures
        forall|a: int|
            0 <= a < parse_document(doc).len() ==> (#[trigger] parse_document(
                doc,
            )[a]).well_formed(),
{
    let ls = lines(doc);
    let found = scan(ls).found;
    lemma_scan_grounded(ls);
    lemma_select(found, header_keys(ls));
    assert forall|a: int| 0 <= a < parse_document(doc).len() implies (#[trigger] parse_document(
        doc,
    )[a]).well_formed() by {
        let d = parse_document(doc)[a];
        lemma_first_with_key_from(found, d.key(), 0);
        let i = first_with_key(found, d.key())->0;
        assert(found[i].well_formed());
    }
}

/// A move is parted at the last separator, whatever the case of its
/// letters: no separator stands behind the one that parts the paths, and
/// without a separator there is no move.
pub proof fn law_move_parts_at_last_separator(args: Seq<char>)
    ensures
        match rfind_ignore_case(args, move_separator()) {
            Some(i) => occurs_at_ignore_case(args, move_separator(), i) && (forall|j: int|
                i < j ==> !occurs_at_ignore_case(args, move_separator(), j)) && (move_paths(
                args,
            ) matches Some((from, to)) ==> from == sanitize(args.take(i)) && to == sanitize(
                args.skip(i + move_separator().len()),
            )),
            None => move_paths(args) is None && forall|j: int|
                !occurs_at_ignore_case(args, move_separator(), j),
        },
{
    lemma_rfind_ignore_case_below(
        args,
        move_separator(),
        args.len() - move_separator().len() + 1,
    );
}

/// Reading a document is a function of its text: two readings of one
/// document give the same directives in the same order.
pub proof fn law_reading_twice_gives_the_same(
    doc: Seq<char>,
    first: Seq<IntermediateOperation>,
    second: Seq<IntermediateOperation>,
)
    requires
        directive_views(first) == parse_document(doc),
        directive_views(second) == parse_document(doc),
    ensures
        first.len() == second.len(),
        forall|i: int| 0 <= i < first.len() ==> first[i]@ == second[i]@,
{
    assert(first.len() == directive_views(first).len());
    assert(second.len() == directive_views(second).len());
    assert forall|i: int| 0 <= i < first.len() implies first[i]@ == second[i]@ by {
        assert(directive_views(first)[i] == first[i]@);
        assert(directive_views(second)[i] == second[i]@);
    }
}

/// A patch whose payload holds no closing marker makes no directive at all.
pub proof fn law_patch_without_closing_marker_is_dropped(args: Seq<char>, content: Seq<char>)
    requires
        find_from(content, replace_marker(), 0) is None,
    ensures
        patch_blocks(content).len() == 0,
        build_directive(Command::Patch, args, content) is None,
{
    lemma_find_from(content, replace_marker(), 0);
    lemma_find_from(content, search_marker(), 0);
    if let Some((_, s0)) = marker_line(content, search_marker(), 0) {
        lemma_find_from(content, divider_marker(), s0);
        if let Some((_, r0)) = marker_line(content, divider_marker(), s0) {
            lemma_find_from(content, replace_marker(), r0);
        }
    }
}

} // verus!
