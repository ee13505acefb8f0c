use repo_wizard::git_service::{
    diff_command, get_git_diff, get_git_status, get_recent_commits, untracked_file_diff,
};
use repo_wizard::types::{Commit, DiffOption, GitStatus};

#[test]
fn test_workspace_diff_includes_untracked() {
    let versioned = "diff --git a/src/git_service.rs b/src/git_service.rs\n--- a/src/git_service.rs\n+++ b/src/git_service.rs\n@@ -1 +1 @@\n-old\n+new\n";
    let untracked = vec![("test-untracked.md".to_string(), "# Title\n\nbody\n".to_string())];
    let diff = get_git_diff(versioned, &untracked);
    println!("=== DIFF OUTPUT ===");
    println!("{}", diff);
    println!("=== END DIFF ===");
    assert!(diff.contains("test-untracked.md"));
    assert!(diff.contains("git_service.rs"));
    let expected_untracked = "diff --git a/test-untracked.md b/test-untracked.md\nnew file mode 100644\n--- /dev/null\n+++ b/test-untracked.md\n@@ -0,0 +1,3 @@\n+# Title\n+\n+body\n";
    assert_eq!(diff, format!("{}\n{}", versioned, expected_untracked));
}

#[test]
fn workspace_diff_of_nothing_is_empty() {
    assert_eq!(get_git_diff("", &Vec::new()), "");
}

#[test]
fn workspace_diff_with_one_side_only() {
    assert_eq!(get_git_diff("some diff", &Vec::new()), "some diff");
    let untracked = vec![("a.txt".to_string(), "x".to_string())];
    assert_eq!(
        get_git_diff("", &untracked),
        "diff --git a/a.txt b/a.txt\nnew file mode 100644\n--- /dev/null\n+++ b/a.txt\n@@ -0,0 +1,1 @@\n+x\n"
    );
}

#[test]
fn untracked_empty_file_has_header_only() {
    assert_eq!(
        untracked_file_diff("e", ""),
        "diff --git a/e b/e\nnew file mode 100644\n--- /dev/null\n+++ b/e\n"
    );
}

#[test]
fn untracked_file_with_many_lines_counts_them_in_decimal() {
    let content = "l\n".repeat(120);
    let diff = untracked_file_diff("big", &content);
    assert!(diff.contains("@@ -0,0 +1,120 @@\n"));
    assert_eq!(diff.matches("\n+l").count(), 120);
}

#[test]
fn status_reads_both_columns() {
    assert_eq!(
        get_git_status(""),
        GitStatus { has_staged_changes: false, has_unstaged_changes: false }
    );
    assert_eq!(
        get_git_status("M  a.rs\n"),
        GitStatus { has_staged_changes: true, has_unstaged_changes: false }
    );
    assert_eq!(
        get_git_status(" M a.rs\n"),
        GitStatus { has_staged_changes: false, has_unstaged_changes: true }
    );
    assert_eq!(
        get_git_status("?? new.rs\nAD b.rs\n"),
        GitStatus { has_staged_changes: true, has_unstaged_changes: true }
    );
    assert_eq!(
        get_git_status("?? new.rs\n"),
        GitStatus { has_staged_changes: false, has_unstaged_changes: false }
    );
    assert_eq!(
        get_git_status("R  a -> b\r\nC  c\n D d"),
        GitStatus { has_staged_changes: true, has_unstaged_changes: true }
    );
}

#[test]
fn commits_need_exactly_four_fields() {
    let log = "abc\x1Ffix bug\x1FAnn\x1F2 days ago\nbroken line\nd\x1Fe\x1Ff\x1Fg\x1Fh\ndef\x1F\x1FBob\x1Fnow";
    let commits = get_recent_commits(log);
    assert_eq!(
        commits,
        vec![
            Commit {
                hash: "abc".to_string(),
                message: "fix bug".to_string(),
                author: "Ann".to_string(),
                date: "2 days ago".to_string(),
            },
            Commit {
                hash: "def".to_string(),
                message: "".to_string(),
                author: "Bob".to_string(),
                date: "now".to_string(),
            },
        ]
    );
    assert!(get_recent_commits("").is_empty());
}

#[test]
fn diff_commands() {
    assert_eq!(diff_command(&DiffOption::Staged), vec!["diff", "--staged"]);
    assert_eq!(diff_command(&DiffOption::Unstaged), vec!["diff"]);
    assert_eq!(diff_command(&DiffOption::Workspace), vec!["diff", "HEAD"]);
    assert_eq!(
        diff_command(&DiffOption::Commit { hash: "abc123".to_string() }),
        vec!["show", "abc123"]
    );
}
