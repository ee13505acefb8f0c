//! The change compiler: from directives and the present content of the files
//! they name to the content each file shall have.

use crate::parser::{
    block_views, directive_views, law_one_directive_for_each_key, parse, parse_document,
    Directive, IntermediateOperation,
};
use crate::patcher::{apply_patch, patched};
use crate::types::{change_views, Change, ChangeOperation};
use vstd::prelude::*;
use vstd::utf8::{decode_utf8, valid_utf8};

verus! {

/// The text that `String::from_utf8_lossy` of the standard library makes of
/// the given bytes.
pub uninterp spec fn utf8_lossy(bytes: Seq<u8>) -> Seq<char>;

/// `String::from_utf8_lossy`: the text of the bytes, with a replacement
/// character for each invalid sequence. Bytes that are valid UTF-8 are
/// decoded as they stand.
#[verifier::external_body]
fn decode_lossy(bytes: &Vec<u8>) -> (r: String)
    ensures
        r@ == utf8_lossy(bytes@),
        valid_utf8(bytes@) ==> r@ == decode_utf8(bytes@),
{
    String::from_utf8_lossy(bytes).into_owned()
}

/// The text after the blocks were tried one after another, each against the
/// text that the blocks before it left, and the number of blocks that applied.
/// A block that does not apply leaves the text as it is.
pub open spec fn blocks_applied(text: Seq<char>, blocks: Seq<(Seq<char>, Seq<char>)>) -> (
    Seq<char>,
    nat,
)
    decreases blocks.len(),
{
    if blocks.len() == 0 {
        (text, 0)
    } else {
        let (before, applied) = blocks_applied(text, blocks.drop_last());
        match patched(before, blocks.last().0, blocks.last().1) {
            Ok(after) => (after, applied + 1),
            Err(_) => (before, applied),
        }
    }
}

/// Tries each block in order against the working text and counts those that
/// applied.
pub fn apply_blocks(text: &str, blocks: &Vec<(String, String)>) -> (r: (String, usize))
    ensures
        (r.0@, r.1 as nat) == blocks_applied(text@, block_views(blocks@)),
        r.1 <= blocks.len(),
{
    let ghost bs = block_views(blocks@);
    let mut working: String = text.to_owned();
    let mut applied: usize = 0;
    let mut i: usize = 0;
    while i < blocks.len()
        invariant
            i <= blocks.len(),
            applied <= i,
            bs == block_views(blocks@),
            (working@, applied as nat) == blocks_applied(text@, bs.take(i as int)),
        decreases blocks.len() - i,
    {
        proof {
            assert(bs.take(i + 1).drop_last() =~= bs.take(i as int));
            assert(bs.take(i + 1).last() == (blocks@[i as int].0@, blocks@[i as int].1@));
        }
        match apply_patch(working.as_str(), blocks[i].0.as_str(), blocks[i].1.as_str()) {
            Ok(after) => {
                working = after;
                applied += 1;
            },
            Err(_) => {},
        }
        i += 1;
    }
    assert(bs.take(blocks.len() as int) =~= bs);
    (working, applied)
}

/// The file whose present content a directive needs: the target of a patch
/// or of an overwrite. A delete and a move need none.
pub open spec fn target_path(d: Directive) -> Option<Seq<char>> {
    match d {
        Directive::Patch { file_path, .. } => Some(file_path),
        Directive::Overwrite { file_path, .. } => Some(file_path),
        _ => None,
    }
}

/// The change that a directive makes, given the present text of its target
/// (`None` where the file does not exist). A delete and a move pass through.
/// An overwrite gives the content of the directive as it stands. A patch gives
/// the present text after its blocks, with both counts. The file is new where
/// it does not exist or the directive says so.
pub open spec fn resolve_text(d: Directive, current: Option<Seq<char>>) -> Change {
    match d {
        Directive::Delete { file_path } => Change::Delete { file_path },
        Directive::Move { from_path, to_path } => Change::Move { from_path, to_path },
        Directive::Overwrite { file_path, content, is_new_file } => Change::Overwrite {
            file_path,
            content,
            is_new_file: is_new_file || current is None,
        },
        Directive::Patch { file_path, blocks, is_new_file } => {
            let start = match current {
                Some(text) => text,
                None => Seq::<char>::empty(),
            };
            let (content, applied) = blocks_applied(start, blocks);
            Change::Patch {
                file_path,
                content,
                is_new_file: is_new_file || current is None,
                total_blocks: blocks.len(),
                applied_blocks: applied,
            }
        },
    }
}

/// The text of a file's bytes, read with a replacement character for each
/// invalid sequence.
pub open spec fn text_of(existing: Option<Seq<u8>>) -> Option<Seq<char>> {
    match existing {
        Some(bytes) => Some(utf8_lossy(bytes)),
        None => None,
    }
}

/// The change that a directive makes, given the present bytes of its target.
pub open spec fn resolve(d: Directive, existing: Option<Seq<u8>>) -> Change {
    resolve_text(d, text_of(existing))
}

/// The view of an optional text.
pub open spec fn text_view(current: Option<String>) -> Option<Seq<char>> {
    match current {
        Some(text) => Some(text@),
        None => None,
    }
}

/// Resolves one directive against the present text of its target file.
pub fn compile_operation(op: &IntermediateOperation, current: Option<String>) -> (r:
    ChangeOperation)
    ensures
        r@ == resolve_text(op@, text_view(current)),
{
    match op {
        IntermediateOperation::Delete { file_path } => ChangeOperation::Delete {
            file_path: file_path.clone(),
        },
        IntermediateOperation::Move { from_path, to_path } => ChangeOperation::Move {
            from_path: from_path.clone(),
            to_path: to_path.clone(),
        },
        IntermediateOperation::Overwrite { file_path, content, is_new_file } => {
            ChangeOperation::Overwrite {
                file_path: file_path.clone(),
                content: content.clone(),
                is_new_file: *is_new_file || current.is_none(),
            }
        },
        IntermediateOperation::Patch { file_path, search_replace_blocks, is_new_file } => {
            let absent = current.is_none();
            let start: String = match current {
                Some(text) => text,
                None => String::new(),
            };
            let (content, applied) = apply_blocks(start.as_str(), search_replace_blocks);
            ChangeOperation::Patch {
                file_path: file_path.clone(),
                content,
                is_new_file: *is_new_file || absent,
                total_blocks: search_replace_blocks.len(),
                applied_blocks: applied,
            }
        },
    }
}

/// The view of optional bytes.
pub open spec fn bytes_view(existing: Option<&Vec<u8>>) -> Option<Seq<u8>> {
    match existing {
        Some(bytes) => Some(bytes@),
        None => None,
    }
}

/// The text of a file's bytes where they are valid UTF-8: the characters
/// that the bytes encode.
pub open spec fn valid_text_of(existing: Option<Seq<u8>>) -> Option<Seq<char>> {
    match existing {
        Some(bytes) => Some(decode_utf8(bytes)),
        None => None,
    }
}

/// Whether the bytes of a file, if there is one, are valid UTF-8.
pub open spec fn is_text(existing: Option<Seq<u8>>) -> bool {
    match existing {
        Some(bytes) => valid_utf8(bytes),
        None => true,
    }
}

/// Resolves one directive against the present bytes of its target file. The
/// bytes are read as text, with a replacement character for each invalid
/// sequence; bytes that are valid UTF-8 are read as they stand.
pub fn compile_directive(op: &IntermediateOperation, existing: Option<&Vec<u8>>) -> (r:
    ChangeOperation)
    ensures
        r@ == resolve(op@, bytes_view(existing)),
        is_text(bytes_view(existing)) ==> r@ == resolve_text(
            op@,
            valid_text_of(bytes_view(existing)),
        ),
{
    let current: Option<String> = match existing {
        Some(bytes) => Some(decode_lossy(bytes)),
        None => None,
    };
    compile_operation(op, current)
}

/// The views of the files of a snapshot: path and bytes of each.
pub open spec fn file_views(files: Seq<(String, Vec<u8>)>) -> Seq<(Seq<char>, Seq<u8>)> {
    Seq::new(files.len(), |i: int| (files[i].0@, files[i].1@))
}

/// The index, not below `from`, of the first file with the given path.
pub open spec fn file_index_from(
    files: Seq<(Seq<char>, Seq<u8>)>,
    path: Seq<char>,
    from: int,
) -> Option<int>
    decreases files.len() - from,
{
    if from < 0 || from >= files.len() {
        None
    } else if files[from].0 == path {
        Some(from)
    } else {
        file_index_from(files, path, from + 1)
    }
}

/// The bytes that a snapshot holds for a path: those of the first file with
/// that path, or `None` where the snapshot has no such file.
pub open spec fn read_file(files: Seq<(Seq<char>, Seq<u8>)>, path: Seq<char>) -> Option<Seq<u8>> {
    match file_index_from(files, path, 0) {
        Some(i) => Some(files[i].1),
        None => None,
    }
}

/// The bytes that a directive needs of a snapshot.
pub open spec fn existing_for(d: Directive, files: Seq<(Seq<char>, Seq<u8>)>) -> Option<Seq<u8>> {
    match target_path(d) {
        Some(path) => read_file(files, path),
        None => None,
    }
}

/// The changes that the directives make against a snapshot: one for each
/// directive, in the order of the directives, each resolved by itself.
pub open spec fn compiled(ds: Seq<Directive>, files: Seq<(Seq<char>, Seq<u8>)>) -> Seq<Change> {
    Seq::new(ds.len(), |i: int| resolve(ds[i], existing_for(ds[i], files)))
}

/// Looks a path up in a snapshot.
pub fn find_file<'a>(files: &'a Vec<(String, Vec<u8>)>, path: &String) -> (r: Option<&'a Vec<u8>>)
    ensures
        bytes_view(r) == read_file(file_views(files@), path@),
{
    let ghost fs = file_views(files@);
    let mut i: usize = 0;
    while i < files.len()
        invariant
            i <= files.len(),
            fs == file_views(files@),
            file_index_from(fs, path@, 0) == file_index_from(fs, path@, i as int),
        decreases files.len() - i,
    {
        assert(fs[i as int] == (files@[i as int].0@, files@[i as int].1@));
        if files[i].0 == *path {
            return Some(&files[i].1);
        }
        i += 1;
    }
    None
}

/// The file that an operation needs to read, if it needs one.
pub fn operation_target(op: &IntermediateOperation) -> (r: Option<&String>)
    ensures
        match r {
            Some(path) => target_path(op@) == Some(path@),
            None => target_path(op@) is None,
        },
{
    match op {
        IntermediateOperation::Patch { file_path, .. } => Some(file_path),
        IntermediateOperation::Overwrite { file_path, .. } => Some(file_path),
        _ => None,
    }
}

/// Resolves every directive against a snapshot of the files: `files` holds
/// the path and the bytes of each file that exists.
pub fn compile(ops: &Vec<IntermediateOperation>, files: &Vec<(String, Vec<u8>)>) -> (r: Vec<
    ChangeOperation,
>)
    ensures
        change_views(r@) == compiled(directive_views(ops@), file_views(files@)),
        forall|i: int|
            0 <= i < ops.len() && is_text(
                existing_for(directive_views(ops@)[i], file_views(files@)),
            ) ==> (#[trigger] r@[i])@ == resolve_text(
                directive_views(ops@)[i],
                valid_text_of(existing_for(directive_views(ops@)[i], file_views(files@))),
            ),
{
    let ghost ds = directive_views(ops@);
    let ghost fs = file_views(files@);
    let mut out: Vec<ChangeOperation> = Vec::new();
    let mut i: usize = 0;
    while i < ops.len()
        invariant
            i <= ops.len(),
            ds == directive_views(ops@),
            fs == file_views(files@),
            out.len() == i,
            forall|j: int|
                0 <= j < i ==> (#[trigger] out@[j])@ == resolve(ds[j], existing_for(ds[j], fs)),
            forall|j: int|
                0 <= j < i && is_text(existing_for(ds[j], fs)) ==> (#[trigger] out@[j])@
                    == resolve_text(ds[j], valid_text_of(existing_for(ds[j], fs))),
        decreases ops.len() - i,
    {
        assert(ds[i as int] == ops@[i as int]@);
        let existing: Option<&Vec<u8>> = match operation_target(&ops[i]) {
            Some(path) => find_file(files, path),
            None => None,
        };
        let change = compile_directive(&ops[i], existing);
        out.push(change);
        i += 1;
    }
    assert(change_views(out@) =~= compiled(ds, fs));
    out
}

/// The files whose present content the directives need, in the order of the
/// directives: the target of each patch and of each overwrite.
pub open spec fn targets(ds: Seq<Directive>) -> Seq<Seq<char>>
    decreases ds.len(),
{
    if ds.len() == 0 {
        seq![]
    } else {
        match target_path(ds.last()) {
            Some(path) => targets(ds.drop_last()).push(path),
            None => targets(ds.drop_last()),
        }
    }
}

/// The paths that a caller has to read before it compiles the directives.
pub fn paths_to_read(ops: &Vec<IntermediateOperation>) -> (r: Vec<String>)
    ensures
        crate::parser::string_views(r@) == targets(directive_views(ops@)),
{
    let ghost ds = directive_views(ops@);
    let mut out: Vec<String> = Vec::new();
    let mut i: usize = 0;
    assert(crate::parser::string_views(out@) =~= targets(ds.take(0)));
    while i < ops.len()
        invariant
            i <= ops.len(),
            ds == directive_views(ops@),
            crate::parser::string_views(out@) == targets(ds.take(i as int)),
        decreases ops.len() - i,
    {
        proof {
            assert(ds.take(i + 1).drop_last() =~= ds.take(i as int));
            assert(ds.take(i + 1).last() == ops@[i as int]@);
        }
        if let Some(path) = operation_target(&ops[i]) {
            let ghost before = out@;
            out.push(path.clone());
            assert(crate::parser::string_views(out@) =~= crate::parser::string_views(before).push(
                path@,
            ));
        }
        i += 1;
    }
    assert(ds.take(ops.len() as int) =~= ds);
    out
}

/// Reads the directives of a markdown document and resolves each against a
/// snapshot of the project's files.
pub fn process_markdown_changes(markdown: &str, files: &Vec<(String, Vec<u8>)>) -> (r: Vec<
    ChangeOperation,
>)
    ensures
        change_views(r@) == compiled(parse_document(markdown@), file_views(files@)),
        forall|i: int|
            0 <= i < r@.len() && is_text(
                existing_for(parse_document(markdown@)[i], file_views(files@)),
            ) ==> (#[trigger] r@[i])@ == resolve_text(
                parse_document(markdown@)[i],
                valid_text_of(existing_for(parse_document(markdown@)[i], file_views(files@))),
            ),
{
    let ops = parse(markdown);
    let r = compile(&ops, files);
    assert(r@.len() == change_views(r@).len());
    r
}

/// Whether block `k` applies to the text that the blocks before it leave.
pub open spec fn block_applies(
    text: Seq<char>,
    blocks: Seq<(Seq<char>, Seq<char>)>,
    k: int,
) -> bool {
    patched(blocks_applied(text, blocks.take(k)).0, blocks[k].0, blocks[k].1) is Ok
}

/// No more blocks apply than there are.
pub proof fn law_applied_at_most_total(text: Seq<char>, blocks: Seq<(Seq<char>, Seq<char>)>)
    ensures
        blocks_applied(text, blocks).1 <= blocks.len(),
    decreases blocks.len(),
{
    if blocks.len() > 0 {
        law_applied_at_most_total(text, blocks.drop_last());
    }
}

/// A block that does not apply stops nothing and changes nothing: text and
/// count are those of the other blocks, tried in their order.
pub proof fn law_failed_block_is_skipped(
    text: Seq<char>,
    blocks: Seq<(Seq<char>, Seq<char>)>,
    k: int,
)
    requires
        0 <= k < blocks.len(),
        !block_applies(text, blocks, k),
    ensures
        blocks_applied(text, blocks) == blocks_applied(text, blocks.remove(k)),
    decreases blocks.len(),
{
    let head = blocks.drop_last();
    if k == blocks.len() - 1 {
        assert(blocks.remove(k) =~= head);
        assert(blocks.take(k) =~= head);
    } else {
        assert(head.take(k) =~= blocks.take(k));
        law_failed_block_is_skipped(text, head, k);
        assert(blocks.remove(k).drop_last() =~= head.remove(k));
        assert(blocks.remove(k).last() == blocks.last());
    }
}

/// The count after the first `n` blocks, where every block but block `k` applies.
proof fn lemma_count_with_one_failure(
    text: Seq<char>,
    blocks: Seq<(Seq<char>, Seq<char>)>,
    k: int,
    n: int,
)
    requires
        0 <= k < blocks.len(),
        0 <= n <= blocks.len(),
        !block_applies(text, blocks, k),
        forall|j: int| 0 <= j < blocks.len() && j != k ==> block_applies(text, blocks, j),
    ensures
        blocks_applied(text, blocks.take(n)).1 == if k < n {
            n - 1
        } else {
            n
        },
    decreases n,
{
    if n > 0 {
        lemma_count_with_one_failure(text, blocks, k, n - 1);
        assert(blocks.take(n).drop_last() =~= blocks.take(n - 1));
        assert(blocks.take(n).last() == blocks[n - 1]);
        if n - 1 != k {
            assert(block_applies(text, blocks, n - 1));
        }
    }
}

/// Of `N` blocks of which one does not apply and the others do, `N - 1`
/// are counted as applied, and the text is the one that the others give, in
/// their order.
pub proof fn law_blocks_are_independent(
    text: Seq<char>,
    blocks: Seq<(Seq<char>, Seq<char>)>,
    k: int,
)
    requires
        0 <= k < blocks.len(),
        !block_applies(text, blocks, k),
        forall|j: int| 0 <= j < blocks.len() && j != k ==> block_applies(text, blocks, j),
    ensures
        blocks_applied(text, blocks).1 == blocks.len() - 1,
        blocks_applied(text, blocks).0 == blocks_applied(text, blocks.remove(k)).0,
        blocks_applied(text, blocks.remove(k)).1 == blocks.remove(k).len(),
{
    lemma_count_with_one_failure(text, blocks, k, blocks.len() as int);
    assert(blocks.take(blocks.len() as int) =~= blocks);
    law_failed_block_is_skipped(text, blocks, k);
}

/// The counts of a patch are in range: as many blocks in all as the
/// directive holds, and no more applied than that. Any other directive
/// carries no counts.
pub proof fn law_counts_in_range(d: Directive, current: Option<Seq<char>>)
    ensures
        match resolve_text(d, current) {
            Change::Patch { total_blocks, applied_blocks, .. } => d is Patch && total_blocks
                == d->blocks.len() && applied_blocks <= total_blocks,
            _ => !(d is Patch),
        },
{
    if d is Patch {
        let start = match current {
            Some(text) => text,
            None => Seq::<char>::empty(),
        };
        law_applied_at_most_total(start, d->blocks);
    }
}

/// A patch whose first block has a blank search text makes its file a new
/// file, whatever its other blocks hold and whether or not the file exists.
pub proof fn law_blank_first_search_creates_file(d: Directive, existing: Option<Seq<u8>>)
    requires
        d.well_formed(),
        d is Patch,
        crate::text::trim(d->blocks[0].0).len() == 0,
    ensures
        resolve(d, existing) is Patch,
        resolve(d, existing)->Patch_is_new_file,
        resolve(d, existing)->total_blocks == d->blocks.len(),
        resolve(d, existing)->applied_blocks <= resolve(d, existing)->total_blocks,
{
    let start = match text_of(existing) {
        Some(text) => text,
        None => Seq::<char>::empty(),
    };
    law_applied_at_most_total(start, d->blocks);
}

/// A delete and a move are resolved without a look at any file: the change
/// is the same against every snapshot.
pub proof fn law_delete_and_move_read_nothing(
    d: Directive,
    files: Seq<(Seq<char>, Seq<u8>)>,
    other: Seq<(Seq<char>, Seq<u8>)>,
)
    requires
        d is Delete || d is Move,
    ensures
        target_path(d) is None,
        resolve(d, existing_for(d, files)) == resolve(d, existing_for(d, other)),
        d matches Directive::Delete { file_path } ==> resolve(d, existing_for(d, files))
            == (Change::Delete { file_path }),
        d matches Directive::Move { from_path, to_path } ==> resolve(d, existing_for(d, files))
            == (Change::Move { from_path, to_path }),
{
}

/// Each path to read is the key of one of the directives, and where no two
/// directives have the same key no path stands twice.
pub proof fn lemma_targets(ds: Seq<Directive>)
    ensures
        forall|a: int|
            0 <= a < targets(ds).len() ==> exists|j: int|
                0 <= j < ds.len() && (#[trigger] ds[j]).key() == #[trigger] targets(ds)[a],
        (forall|i: int, j: int| 0 <= i < j < ds.len() ==> ds[i].key() != ds[j].key())
            ==> targets(ds).no_duplicates(),
    decreases ds.len(),
{
    if ds.len() > 0 {
        let head = ds.drop_last();
        let last = ds.last();
        lemma_targets(head);
        assert forall|a: int| 0 <= a < targets(ds).len() implies exists|j: int|
            0 <= j < ds.len() && (#[trigger] ds[j]).key() == #[trigger] targets(ds)[a] by {
            if a < targets(head).len() {
                let j = choose|j: int|
                    0 <= j < head.len() && (#[trigger] head[j]).key() == targets(head)[a];
                assert(ds[j].key() == targets(ds)[a]);
            } else {
                assert(ds[ds.len() - 1].key() == targets(ds)[a]);
            }
        }
        if forall|i: int, j: int| 0 <= i < j < ds.len() ==> ds[i].key() != ds[j].key() {
            assert forall|i: int, j: int| 0 <= i < j < head.len() implies head[i].key()
                != head[j].key() by {
                assert(ds[i].key() != ds[j].key());
            }
            assert forall|a: int, b: int|
                0 <= a < targets(ds).len() && 0 <= b < targets(ds).len() && a != b implies targets(
                ds,
            )[a] != targets(ds)[b] by {
                let lo = if a < b {
                    a
                } else {
                    b
                };
                let hi = if a < b {
                    b
                } else {
                    a
                };
                if hi < targets(head).len() {
                    assert(targets(head)[lo] != targets(head)[hi]);
                } else {
                    let j = choose|j: int|
                        0 <= j < head.len() && (#[trigger] head[j]).key() == targets(head)[lo];
                    assert(ds[j].key() != ds[ds.len() - 1].key());
                }
            }
        }
    }
}

/// Each file is read at most once: among the paths that the directives of a
/// document need, no path stands twice.
pub proof fn law_each_file_is_read_once(doc: Seq<char>)
    ensures
        targets(parse_document(doc)).no_duplicates(),
{
    law_one_directive_for_each_key(doc);
    lemma_targets(parse_document(doc));
}

} // verus!
