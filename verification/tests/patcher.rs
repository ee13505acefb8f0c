use repo_wizard::encoding::{encode_file_content, project_window_label};
use repo_wizard::file_search_service::{fuzzy_scan, FuzzyScan};
use repo_wizard::parser::IntermediateOperation;
use repo_wizard::patcher::{apply_patch, apply_patch_to_content, ContentPatchError, PatchError};
use repo_wizard::path_utils::{get_relative_path, normalize_path_str};
use repo_wizard::review_service::{apply_blocks, compile, compile_operation, paths_to_read};
use repo_wizard::state::WindowRegistry;
use repo_wizard::types::ChangeOperation;

fn ok(s: &str) -> Result<String, PatchError> {
    Ok(s.to_string())
}

#[test]
fn exact_match_replaces_the_first_occurrence_only() {
    assert_eq!(apply_patch("a b a b", "a", "X"), ok("X b a b"));
    assert_eq!(apply_patch("one\ntwo\nthree", "two\n", ""), ok("one\nthree"));
    assert_eq!(apply_patch("abc", "abc", ""), ok(""));
}

#[test]
fn exact_match_has_precedence_over_lines() {
    assert_eq!(apply_patch("  foo  \nbar", "foo", "X"), ok("  X  \nbar"));
    assert_eq!(apply_patch("  foo  \nbar", " foo", "X"), ok(" X  \nbar"));
    assert_eq!(apply_patch("  foo  \nbar", "foo \n", "X"), ok("X\nbar\n"));
}

#[test]
fn line_endings_are_normalized_first() {
    assert_eq!(apply_patch("a\r\nb\r\nc", "a\nb", "X"), ok("X\nc"));
    assert_eq!(apply_patch("a\nb\nc", "a\r\nb", "X"), ok("X\nc"));
    assert_eq!(apply_patch("a\r\nb", "zzz", "X"), Err(PatchError::NotFound));
    assert_eq!(apply_patch("a\rb", "a\rb", "X\r\n"), ok("X\r\n"));
}

#[test]
fn empty_search_puts_the_replacement_in_front() {
    assert_eq!(apply_patch("", "", "new"), ok("new"));
    assert_eq!(apply_patch("old", "", "new "), ok("new old"));
}

#[test]
fn blank_search_that_does_not_occur_is_refused() {
    assert_eq!(apply_patch("abc", "   ", "x"), Err(PatchError::EmptySearch));
    assert_eq!(apply_patch("abc", "\n\t\n", "x"), Err(PatchError::EmptySearch));
    assert_eq!(apply_patch("a   b", "   ", "x"), ok("axb"));
}

#[test]
fn lines_match_without_surrounding_whitespace() {
    assert_eq!(
        apply_patch("fn a() {\n    one();\n    two();\n}", "one();\ntwo();", "  both();"),
        ok("fn a() {\n  both();\n}\n")
    );
    assert_eq!(apply_patch("a\n  b\nc\n", "\n\n b \n\n", "B\n"), ok("a\nB\nc\n"));
    assert_eq!(apply_patch("x\n\ty\t", " y", ""), ok("x\n\n"));
    assert_eq!(apply_patch("k\n k \n k", "k ", "1"), ok("k\n 1\n k"));
    assert_eq!(apply_patch(" k\n k \nk  ", "k   ", "1"), ok("1\n k \nk  \n"));
}

#[test]
fn the_first_window_of_lines_wins() {
    assert_eq!(apply_patch(" a \nb\n a \nb", "a\n b", "X"), ok("X\n a \nb\n"));
}

#[test]
fn search_that_is_nowhere_is_not_found() {
    assert_eq!(apply_patch("initial content", "missing", "replaced"), Err(PatchError::NotFound));
    assert_eq!(apply_patch("one line", "one\ntwo\nthree", "x"), Err(PatchError::NotFound));
    assert_eq!(apply_patch("", "x", "y"), Err(PatchError::NotFound));
    assert_eq!(apply_patch("a\nb", "b\na", "y"), Err(PatchError::NotFound));
}

#[test]
fn patch_errors_in_words() {
    assert_eq!(PatchError::EmptySearch.message(), "Search block is empty or only whitespace");
    assert_eq!(PatchError::NotFound.message(), "Search block not found");
}

fn blocks(v: &[(&str, &str)]) -> Vec<(String, String)> {
    v.iter().map(|(s, r)| (s.to_string(), r.to_string())).collect()
}

#[test]
fn blocks_apply_one_after_another() {
    let (content, applied) = apply_blocks("a b c", &blocks(&[("a", "b"), ("b", "c"), ("c b", "!")]));
    assert_eq!((content.as_str(), applied), ("! c", 3));
    let (content, applied) = apply_blocks("text", &blocks(&[]));
    assert_eq!((content.as_str(), applied), ("text", 0));
}

#[test]
fn a_failing_block_leaves_the_others_alone() {
    let all = blocks(&[("one", "1"), ("nine", "9"), ("two", "2"), ("1 2", "done")]);
    let without = blocks(&[("one", "1"), ("two", "2"), ("1 2", "done")]);
    let (content, applied) = apply_blocks("one two", &all);
    assert_eq!((content.as_str(), applied), ("done", 3));
    assert_eq!(apply_blocks("one two", &without), (content, 3));
    for k in 0..4 {
        let mut some = all.clone();
        some[k] = ("absent".to_string(), "x".to_string());
        let mut rest = all.clone();
        rest.remove(k);
        assert_eq!(apply_blocks("one two", &some), apply_blocks("one two", &rest));
    }
}

fn patch_op(path: &str, b: &[(&str, &str)], is_new_file: bool) -> IntermediateOperation {
    IntermediateOperation::Patch {
        file_path: path.to_string(),
        search_replace_blocks: blocks(b),
        is_new_file,
    }
}

#[test]
fn patch_counts_total_and_applied_blocks() {
    let op = patch_op("f", &[("a", "b"), ("zzz", "y"), ("b", "c")], false);
    assert_eq!(
        compile_operation(&op, Some("a".to_string())),
        ChangeOperation::Patch {
            file_path: "f".to_string(),
            content: "c".to_string(),
            is_new_file: false,
            total_blocks: 3,
            applied_blocks: 2,
        }
    );
}

#[test]
fn absent_file_is_new_and_starts_empty() {
    let op = patch_op("f", &[("", "hello")], true);
    assert_eq!(
        compile_operation(&op, None),
        ChangeOperation::Patch {
            file_path: "f".to_string(),
            content: "hello".to_string(),
            is_new_file: true,
            total_blocks: 1,
            applied_blocks: 1,
        }
    );
    let op = patch_op("f", &[("x", "y")], false);
    assert_eq!(
        compile_operation(&op, None),
        ChangeOperation::Patch {
            file_path: "f".to_string(),
            content: "".to_string(),
            is_new_file: true,
            total_blocks: 1,
            applied_blocks: 0,
        }
    );
}

#[test]
fn new_file_flag_of_the_directive_stays() {
    let op = patch_op("f", &[("", "hello "), ("nothing", "x")], true);
    assert_eq!(
        compile_operation(&op, Some("world".to_string())),
        ChangeOperation::Patch {
            file_path: "f".to_string(),
            content: "hello world".to_string(),
            is_new_file: true,
            total_blocks: 2,
            applied_blocks: 1,
        }
    );
}

#[test]
fn overwrite_gives_its_content_verbatim() {
    let op = IntermediateOperation::Overwrite {
        file_path: "o".to_string(),
        content: "a\r\nb".to_string(),
        is_new_file: false,
    };
    let files = vec![("o".to_string(), b"old".to_vec())];
    assert_eq!(
        compile(&vec![op], &files),
        vec![ChangeOperation::Overwrite {
            file_path: "o".to_string(),
            content: "a\r\nb".to_string(),
            is_new_file: false,
        }]
    );
    let op = IntermediateOperation::Overwrite {
        file_path: "o".to_string(),
        content: "x".to_string(),
        is_new_file: false,
    };
    assert_eq!(
        compile(&vec![op], &Vec::new()),
        vec![ChangeOperation::Overwrite {
            file_path: "o".to_string(),
            content: "x".to_string(),
            is_new_file: true,
        }]
    );
    let op = IntermediateOperation::Overwrite {
        file_path: "o".to_string(),
        content: "x".to_string(),
        is_new_file: true,
    };
    assert_eq!(
        compile(&vec![op], &files),
        vec![ChangeOperation::Overwrite {
            file_path: "o".to_string(),
            content: "x".to_string(),
            is_new_file: true,
        }]
    );
}

#[test]
fn bytes_that_are_no_text_are_read_with_replacements() {
    let files = vec![("b".to_string(), vec![b'a', 0xFF, b'b', b'\n', b'c'])];
    let op = patch_op("b", &[("c", "d")], false);
    assert_eq!(
        compile(&vec![op], &files),
        vec![ChangeOperation::Patch {
            file_path: "b".to_string(),
            content: "a\u{FFFD}b\nd".to_string(),
            is_new_file: false,
            total_blocks: 1,
            applied_blocks: 1,
        }]
    );
}

#[test]
fn snapshot_gives_the_first_file_of_a_path() {
    let files = vec![
        ("x".to_string(), b"first".to_vec()),
        ("y".to_string(), b"other".to_vec()),
        ("x".to_string(), b"second".to_vec()),
    ];
    let ops = vec![patch_op("x", &[("first", "1")], false), patch_op("y", &[("other", "2")], false)];
    let changes = compile(&ops, &files);
    assert_eq!(
        changes,
        vec![
            ChangeOperation::Patch {
                file_path: "x".to_string(),
                content: "1".to_string(),
                is_new_file: false,
                total_blocks: 1,
                applied_blocks: 1,
            },
            ChangeOperation::Patch {
                file_path: "y".to_string(),
                content: "2".to_string(),
                is_new_file: false,
                total_blocks: 1,
                applied_blocks: 1,
            },
        ]
    );
    assert_eq!(paths_to_read(&ops), vec!["x", "y"]);
}

#[test]
fn paths_to_read_leave_out_delete_and_move() {
    let ops = vec![
        IntermediateOperation::Delete { file_path: "d".to_string() },
        patch_op("p", &[("a", "b")], false),
        IntermediateOperation::Move { from_path: "m".to_string(), to_path: "n".to_string() },
        IntermediateOperation::Overwrite {
            file_path: "o".to_string(),
            content: "".to_string(),
            is_new_file: true,
        },
    ];
    assert_eq!(paths_to_read(&ops), vec!["p", "o"]);
}

const DIFF: &str = "--- a/ideals\n+++ b/ideals\n@@ -1,2 +1,3 @@\n First:\n     Life before death,\n+Second:\n";

#[test]
fn unified_diff_is_applied_to_content() {
    let base = b"First:\n    Life before death,\n";
    assert_eq!(
        apply_patch_to_content(base, DIFF),
        Ok(b"First:\n    Life before death,\nSecond:\n".to_vec())
    );
}

#[test]
fn unified_diff_errors() {
    assert_eq!(
        apply_patch_to_content(&[0xC3, 0x28], DIFF),
        Err(ContentPatchError::InvalidContent)
    );
    assert_eq!(
        apply_patch_to_content(&[0xFF], "@@ nonsense"),
        Err(ContentPatchError::InvalidContent)
    );
    assert_eq!(
        apply_patch_to_content(b"x\n", "--- a\n+++ b\n@@ -1,1 +1,1 @@ bad\nno prefix\n"),
        Err(ContentPatchError::MalformedPatch)
    );
    assert_eq!(
        apply_patch_to_content(b"something else\n", DIFF),
        Err(ContentPatchError::HunkFailed)
    );
}

#[test]
fn base64_of_content_and_labels() {
    assert_eq!(encode_file_content(b"hello"), "aGVsbG8=");
    assert_eq!(encode_file_content(&[0, 255, 254, 1]), "AP/+AQ==");
    assert_eq!(encode_file_content(b""), "");
    assert_eq!(
        project_window_label("/home/user/my project"),
        "project-L2hvbWUvdXNlci9teSBwcm9qZWN0"
    );
    assert_eq!(project_window_label("/tmp/\u{e9}?>"), "project-L3RtcC_DqT8-");
    assert_eq!(project_window_label(""), "project-");
}

#[test]
fn paths_are_written_with_slashes() {
    assert_eq!(normalize_path_str("a\\b\\c.txt"), "a/b/c.txt");
    assert_eq!(normalize_path_str("a/b"), "a/b");
    assert_eq!(normalize_path_str(""), "");
    assert_eq!(normalize_path_str("\\"), "/");
}

#[test]
fn relative_paths() {
    assert_eq!(get_relative_path("/a/b/c.txt", "/a"), Ok("b/c.txt".to_string()));
    assert_eq!(get_relative_path("/a/b", "/a/b"), Ok("".to_string()));
    let e = get_relative_path("/x/y", "/a").unwrap_err();
    assert_eq!(e.full_path, "/x/y");
    assert_eq!(e.root_path, "/a");
    assert_eq!(e.message(), "Failed to strip prefix '/a' from '/x/y'");
}

#[test]
fn registry_keeps_one_project_for_each_label() {
    let mut reg = WindowRegistry::new();
    assert_eq!(reg.first_blank_window_label(), None);
    assert_eq!(reg.get_label_for_project("/p"), None);
    reg.set_project_for_label("main", None);
    reg.set_project_for_label("w1", Some("/p"));
    assert_eq!(reg.first_blank_window_label(), Some("main".to_string()));
    assert_eq!(reg.get_label_for_project("/p"), Some("w1".to_string()));
    assert_eq!(reg.get_label_for_project("/q"), None);
    reg.set_project_for_label("main", Some("/q"));
    assert_eq!(reg.first_blank_window_label(), None);
    assert_eq!(reg.get_label_for_project("/q"), Some("main".to_string()));
    reg.set_project_for_label("w1", None);
    assert_eq!(reg.get_label_for_project("/p"), None);
    assert_eq!(reg.first_blank_window_label(), Some("w1".to_string()));
    let fresh = WindowRegistry::default();
    assert_eq!(fresh.first_blank_window_label(), None);
}

#[test]
fn scan_gives_points_for_runs_and_word_starts() {
    assert_eq!(
        fuzzy_scan("abc", "abc"),
        FuzzyScan { matched: 3, score: 15 + 3 + 6 + 9, first_match: Some(0) }
    );
    assert_eq!(
        fuzzy_scan("abc", "a_b_c"),
        FuzzyScan { matched: 3, score: (3 + 15) + (3 + 15) + (3 + 15), first_match: Some(0) }
    );
    assert_eq!(
        fuzzy_scan("bc", "abxc"),
        FuzzyScan { matched: 2, score: 3 + 3, first_match: Some(1) }
    );
    assert_eq!(fuzzy_scan("xyz", "abc"), FuzzyScan { matched: 0, score: 0, first_match: None });
    assert_eq!(fuzzy_scan("", "abc"), FuzzyScan { matched: 0, score: 0, first_match: None });
    assert_eq!(fuzzy_scan("abc", ""), FuzzyScan { matched: 0, score: 0, first_match: None });
    assert_eq!(
        fuzzy_scan("ab", "ab/ab"),
        FuzzyScan { matched: 2, score: 15 + 3 + 6, first_match: Some(0) }
    );
    assert_eq!(
        fuzzy_scan("mn", "src/main.rs"),
        FuzzyScan { matched: 2, score: (3 + 15) + 3, first_match: Some(4) }
    );
    assert_eq!(fuzzy_scan("ab", "a"), FuzzyScan { matched: 1, score: 18, first_match: Some(0) });
}

#[test]
fn scan_of_the_longest_text_fits() {
    let text = "a".repeat(32768);
    let r = fuzzy_scan(&text, &text);
    assert_eq!(r.matched, 32768);
    assert_eq!(r.score as i64, 3 * 32768 * 32769 / 2 + 15);
}
