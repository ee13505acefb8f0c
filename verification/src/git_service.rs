//! What the version-control reader computes from the text that `git` prints.

use crate::text::{
    append, append_each, concat_each, from_chars, lines, lines_of, split, split_chars, to_chars,
    views,
};
use crate::types::{Commit, DiffOption, GitStatus};
use vstd::prelude::*;

verus! {

/// The codes that the first column of a short status line shows for a staged change.
pub open spec fn is_staged_code(c: char) -> bool {
    c == 'M' || c == 'A' || c == 'D' || c == 'R' || c == 'C'
}

/// The codes that the second column shows for a change that is not staged.
pub open spec fn is_unstaged_code(c: char) -> bool {
    c == 'M' || c == 'D'
}

/// A status line reports a staged change by a code in its first column.
pub open spec fn line_is_staged(line: Seq<char>) -> bool {
    line.len() >= 1 && is_staged_code(line[0])
}

/// A status line reports an unstaged change by a code in its second column.
pub open spec fn line_is_unstaged(line: Seq<char>) -> bool {
    line.len() >= 2 && is_unstaged_code(line[1])
}

/// Whether some line of the status reports a staged change.
pub open spec fn any_staged(ls: Seq<Seq<char>>) -> bool {
    exists|i: int| 0 <= i < ls.len() && line_is_staged(#[trigger] ls[i])
}

/// Whether some line of the status reports an unstaged change.
pub open spec fn any_unstaged(ls: Seq<Seq<char>>) -> bool {
    exists|i: int| 0 <= i < ls.len() && line_is_unstaged(#[trigger] ls[i])
}

/// Reads the short status that `git status --porcelain` prints.
pub fn get_git_status(porcelain: &str) -> (r: GitStatus)
    ensures
        r.has_staged_changes == any_staged(lines(porcelain@)),
        r.has_unstaged_changes == any_unstaged(lines(porcelain@)),
{
    let chars = to_chars(porcelain);
    let ls = lines_of(&chars);
    let ghost all = views(ls@);
    let mut staged = false;
    let mut unstaged = false;
    let mut i: usize = 0;
    while i < ls.len()
        invariant
            i <= ls.len(),
            all == views(ls@),
            staged == any_staged(all.take(i as int)),
            unstaged == any_unstaged(all.take(i as int)),
        decreases ls.len() - i,
    {
        let line = &ls[i];
        let ghost before = all.take(i as int);
        let ghost after = all.take(i + 1);
        assert(after[i as int] == line@);
        assert(forall|j: int| 0 <= j < i ==> before[j] == after[j]);
        let here_staged = line.len() >= 1 && (line[0] == 'M' || line[0] == 'A' || line[0] == 'D'
            || line[0] == 'R' || line[0] == 'C');
        let here_unstaged = line.len() >= 2 && (line[1] == 'M' || line[1] == 'D');
        proof {
            if any_staged(before) {
                let j = choose|j: int|
                    0 <= j < before.len() && line_is_staged(#[trigger] before[j]);
                assert(line_is_staged(after[j]));
            }
            if any_unstaged(before) {
                let j = choose|j: int|
                    0 <= j < before.len() && line_is_unstaged(#[trigger] before[j]);
                assert(line_is_unstaged(after[j]));
            }
            if any_staged(after) && !here_staged {
                let j = choose|j: int| 0 <= j < after.len() && line_is_staged(#[trigger] after[j]);
                assert(line_is_staged(before[j]));
            }
            if any_unstaged(after) && !here_unstaged {
                let j = choose|j: int|
                    0 <= j < after.len() && line_is_unstaged(#[trigger] after[j]);
                assert(line_is_unstaged(before[j]));
            }
            if here_staged {
                assert(line_is_staged(after[i as int]));
            }
            if here_unstaged {
                assert(line_is_unstaged(after[i as int]));
            }
        }
        staged = staged || here_staged;
        unstaged = unstaged || here_unstaged;
        i += 1;
    }
    assert(all.take(ls.len() as int) =~= all);
    GitStatus { has_staged_changes: staged, has_unstaged_changes: unstaged }
}

/// The mathematical value of a `Commit`.
pub struct CommitRecord {
    pub hash: Seq<char>,
    pub message: Seq<char>,
    pub author: Seq<char>,
    pub date: Seq<char>,
}

impl View for Commit {
    type V = CommitRecord;

    open spec fn view(&self) -> CommitRecord {
        CommitRecord {
            hash: self.hash@,
            message: self.message@,
            author: self.author@,
            date: self.date@,
        }
    }
}

/// The views of a vector of commits.
pub open spec fn commit_views(v: Seq<Commit>) -> Seq<CommitRecord> {
    Seq::new(v.len(), |i: int| v[i]@)
}

/// The character that parts the fields of a log line.
pub open spec fn unit_separator() -> char {
    '\x1F'
}

/// The commit of a log line: its four fields, where it has exactly four.
pub open spec fn commit_of_line(line: Seq<char>) -> Option<CommitRecord> {
    let parts = split(line, unit_separator());
    if parts.len() == 4 {
        Some(CommitRecord { hash: parts[0], message: parts[1], author: parts[2], date: parts[3] })
    } else {
        None
    }
}

/// The commits of the lines of a log, in order; a line without exactly four
/// fields gives none.
pub open spec fn commits_of(ls: Seq<Seq<char>>) -> Seq<CommitRecord>
    decreases ls.len(),
{
    if ls.len() == 0 {
        seq![]
    } else {
        match commit_of_line(ls.last()) {
            Some(c) => commits_of(ls.drop_last()).push(c),
            None => commits_of(ls.drop_last()),
        }
    }
}

/// Reads the log that `git log` prints with hash, subject, author and date
/// parted by the unit separator.
pub fn get_recent_commits(log: &str) -> (r: Vec<Commit>)
    ensures
        commit_views(r@) == commits_of(lines(log@)),
{
    let chars = to_chars(log);
    let ls = lines_of(&chars);
    let ghost all = views(ls@);
    let mut out: Vec<Commit> = Vec::new();
    let mut i: usize = 0;
    assert(commit_views(out@) =~= commits_of(all.take(0)));
    while i < ls.len()
        invariant
            i <= ls.len(),
            all == views(ls@),
            commit_views(out@) == commits_of(all.take(i as int)),
        decreases ls.len() - i,
    {
        proof {
            assert(all.take(i + 1).drop_last() =~= all.take(i as int));
            assert(all.take(i + 1).last() == ls@[i as int]@);
        }
        let parts = split_chars(&ls[i], '\x1F');
        if parts.len() == 4 {
            let ghost ps = views(parts@);
            assert(ps[0] == parts@[0]@ && ps[1] == parts@[1]@ && ps[2] == parts@[2]@ && ps[3]
                == parts@[3]@);
            let commit = Commit {
                hash: from_chars(&parts[0]),
                message: from_chars(&parts[1]),
                author: from_chars(&parts[2]),
                date: from_chars(&parts[3]),
            };
            let ghost before = out@;
            out.push(commit);
            assert(commit_views(out@) =~= commit_views(before).push(commit@));
        }
        i += 1;
    }
    assert(all.take(ls.len() as int) =~= all);
    out
}

/// The digit of a number below ten.
pub open spec fn digit(d: nat) -> char {
    ((0x30 + d) as u8) as char
}

/// A number written in decimal digits.
pub open spec fn decimal(n: nat) -> Seq<char>
    decreases n,
{
    if n < 10 {
        seq![digit(n)]
    } else {
        decimal(n / 10).push(digit(n % 10))
    }
}

/// Executable `decimal`.
pub fn decimal_chars(n: usize) -> (r: Vec<char>)
    ensures
        r@ == decimal(n as nat),
    decreases n,
{
    if n < 10 {
        let d: u8 = 0x30 + n as u8;
        let mut out: Vec<char> = Vec::new();
        out.push(d as char);
        assert(out@ =~= seq![digit(n as nat)]);
        out
    } else {
        let mut out = decimal_chars(n / 10);
        let d: u8 = 0x30 + (n % 10) as u8;
        out.push(d as char);
        out
    }
}

/// Each line with a plus sign before it.
pub open spec fn added_lines(ls: Seq<Seq<char>>) -> Seq<Seq<char>> {
    Seq::new(ls.len(), |i: int| seq!['+'] + ls[i])
}

/// The hunk that adds every line of a new file; nothing for a file without lines.
pub open spec fn new_file_hunk(ls: Seq<Seq<char>>) -> Seq<char> {
    if ls.len() == 0 {
        seq![]
    } else {
        "@@ -0,0 +1,"@ + decimal(ls.len()) + " @@\n"@ + concat_each(added_lines(ls), seq!['\n'])
    }
}

/// The difference that shows a file that is not versioned yet as a new file.
pub open spec fn untracked_diff(path: Seq<char>, content: Seq<char>) -> Seq<char> {
    "diff --git a/"@ + path + " b/"@ + path + "\n"@ + "new file mode 100644\n"@
        + "--- /dev/null\n"@ + "+++ b/"@ + path + "\n"@ + new_file_hunk(lines(content))
}

/// Writes the difference of one untracked file: the header of a new file and
/// a hunk that adds each of its lines.
pub fn untracked_file_diff(file_path: &str, content: &str) -> (r: String)
    ensures
        r@ == untracked_diff(file_path@, content@),
{
    let path = to_chars(file_path);
    let ls = lines_of(&to_chars(content));
    let newline_text = to_chars("\n");
    let mut out: Vec<char> = to_chars("diff --git a/");
    append(&mut out, &path);
    append(&mut out, &to_chars(" b/"));
    append(&mut out, &path);
    append(&mut out, &newline_text);
    append(&mut out, &to_chars("new file mode 100644\n"));
    append(&mut out, &to_chars("--- /dev/null\n"));
    append(&mut out, &to_chars("+++ b/"));
    append(&mut out, &path);
    append(&mut out, &newline_text);
    let ghost head = out@;
    if ls.len() > 0 {
        append(&mut out, &to_chars("@@ -0,0 +1,"));
        append(&mut out, &decimal_chars(ls.len()));
        append(&mut out, &to_chars(" @@\n"));
        let mut added: Vec<Vec<char>> = Vec::new();
        let mut i: usize = 0;
        while i < ls.len()
            invariant
                i <= ls.len(),
                added.len() == i,
                forall|j: int| 0 <= j < i ==> (#[trigger] added@[j])@ == seq!['+'] + ls@[j]@,
            decreases ls.len() - i,
        {
            let mut line: Vec<char> = Vec::new();
            line.push('+');
            append(&mut line, &ls[i]);
            added.push(line);
            i += 1;
        }
        assert(views(added@) =~= added_lines(views(ls@)));
        let end: Vec<char> = vec!['\n'];
        assert(end@ =~= seq!['\n']);
        assert(views(added@).subrange(0, added.len() as int) =~= views(added@));
        append_each(&mut out, &added, 0, added.len(), &end);
        assert(out@ =~= head + new_file_hunk(views(ls@)));
    } else {
        assert(out@ =~= head + new_file_hunk(views(ls@)));
    }
    from_chars(&out)
}

/// The views of the untracked files: path and text of each.
pub open spec fn untracked_views(files: Seq<(String, String)>) -> Seq<(Seq<char>, Seq<char>)> {
    Seq::new(files.len(), |i: int| (files[i].0@, files[i].1@))
}

/// The differences of the untracked files, one after another.
pub open spec fn untracked_diffs(files: Seq<(Seq<char>, Seq<char>)>) -> Seq<char>
    decreases files.len(),
{
    if files.len() == 0 {
        seq![]
    } else {
        untracked_diffs(files.drop_last()) + untracked_diff(files.last().0, files.last().1)
    }
}

/// The difference of a workspace: the difference of the versioned files and
/// that of the untracked ones, with a line feed between them where neither is
/// empty.
pub open spec fn workspace_diff(versioned: Seq<char>, untracked: Seq<char>) -> Seq<char> {
    if versioned.len() == 0 {
        untracked
    } else if untracked.len() == 0 {
        versioned
    } else {
        versioned + seq!['\n'] + untracked
    }
}

/// Puts the difference of a workspace together: `tracked_diff` is what `git`
/// prints for the versioned files, `untracked` holds path and text of each
/// untracked file that could be read.
pub fn get_git_diff(tracked_diff: &str, untracked: &Vec<(String, String)>) -> (r: String)
    ensures
        r@ == workspace_diff(tracked_diff@, untracked_diffs(untracked_views(untracked@))),
{
    let ghost fs = untracked_views(untracked@);
    let mut extra: Vec<char> = Vec::new();
    let mut i: usize = 0;
    assert(extra@ =~= untracked_diffs(fs.take(0)));
    while i < untracked.len()
        invariant
            i <= untracked.len(),
            fs == untracked_views(untracked@),
            extra@ == untracked_diffs(fs.take(i as int)),
        decreases untracked.len() - i,
    {
        proof {
            assert(fs.take(i + 1).drop_last() =~= fs.take(i as int));
            assert(fs.take(i + 1).last() == (untracked@[i as int].0@, untracked@[i as int].1@));
        }
        let one = untracked_file_diff(untracked[i].0.as_str(), untracked[i].1.as_str());
        append(&mut extra, &to_chars(one.as_str()));
        i += 1;
    }
    assert(fs.take(untracked.len() as int) =~= fs);
    let versioned = to_chars(tracked_diff);
    if versioned.len() == 0 {
        from_chars(&extra)
    } else if extra.len() == 0 {
        from_chars(&versioned)
    } else {
        let mut out = versioned;
        out.push('\n');
        append(&mut out, &extra);
        assert(out@ =~= tracked_diff@ + seq!['\n'] + extra@);
        from_chars(&out)
    }
}

/// The arguments that `git` is called with for a difference.
pub open spec fn diff_arguments(option: DiffOption) -> Seq<Seq<char>> {
    match option {
        DiffOption::Staged => seq!["diff"@, "--staged"@],
        DiffOption::Unstaged => seq!["diff"@],
        DiffOption::Workspace => seq!["diff"@, "HEAD"@],
        DiffOption::Commit { hash } => seq!["show"@, hash@],
    }
}

/// The arguments that `git` is called with for a difference: for a workspace
/// those for its versioned files.
pub fn diff_command(option: &DiffOption) -> (r: Vec<String>)
    ensures
        crate::parser::string_views(r@) == diff_arguments(*option),
{
    let mut out: Vec<String> = Vec::new();
    match option {
        DiffOption::Staged => {
            out.push("diff".to_owned());
            out.push("--staged".to_owned());
        },
        DiffOption::Unstaged => {
            out.push("diff".to_owned());
        },
        DiffOption::Workspace => {
            out.push("diff".to_owned());
            out.push("HEAD".to_owned());
        },
        DiffOption::Commit { hash } => {
            out.push("show".to_owned());
            out.push(hash.clone());
        },
    }
    assert(crate::parser::string_views(out@) =~= diff_arguments(*option));
    out
}

} // verus!
