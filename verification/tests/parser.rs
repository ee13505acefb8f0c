use repo_wizard::parser::{
    parse, parse_all_search_replace_blocks, parse_command_line, sanitize_path, Command,
    IntermediateOperation, MarkdownParser,
};
use repo_wizard::text::{lines_of, split_chars, to_chars, trim_chars, to_ascii_upper, CharClass};

fn chars(s: &str) -> Vec<char> {
    s.chars().collect()
}

fn text(v: &Vec<char>) -> String {
    v.iter().collect()
}

fn delete(path: &str) -> IntermediateOperation {
    IntermediateOperation::Delete { file_path: path.to_string() }
}

fn overwrite(path: &str, content: &str, is_new_file: bool) -> IntermediateOperation {
    IntermediateOperation::Overwrite {
        file_path: path.to_string(),
        content: content.to_string(),
        is_new_file,
    }
}

fn patch(path: &str, blocks: &[(&str, &str)], is_new_file: bool) -> IntermediateOperation {
    IntermediateOperation::Patch {
        file_path: path.to_string(),
        search_replace_blocks: blocks
            .iter()
            .map(|(s, r)| (s.to_string(), r.to_string()))
            .collect(),
        is_new_file,
    }
}

fn moving(from: &str, to: &str) -> IntermediateOperation {
    IntermediateOperation::Move { from_path: from.to_string(), to_path: to.to_string() }
}

#[test]
fn whitespace_is_what_the_standard_library_calls_whitespace() {
    for n in 0u32..0x11_0000 {
        if let Some(c) = char::from_u32(n) {
            assert_eq!(CharClass::Whitespace.has(c), c.is_whitespace(), "U+{:04X}", n);
        }
    }
}

#[test]
fn quotes_are_backtick_and_both_quotes() {
    for n in 0u32..0x11_0000 {
        if let Some(c) = char::from_u32(n) {
            assert_eq!(CharClass::Quote.has(c), c == '`' || c == '\'' || c == '"');
        }
    }
}

#[test]
fn ascii_upper_is_that_of_the_standard_library() {
    for n in 0u32..0x11_0000 {
        if let Some(c) = char::from_u32(n) {
            assert_eq!(to_ascii_upper(c), c.to_ascii_uppercase());
        }
    }
}

#[test]
fn lines_are_those_of_the_standard_library() {
    let samples = [
        "",
        "\n",
        "a",
        "a\n",
        "a\nb",
        "a\r\nb\r\n",
        "foo\nbar\n\r\nbaz\r",
        "\r",
        "\r\n",
        "a\r\r\nb",
        "\n\n\n",
        "x\ry\nz",
    ];
    for s in samples {
        let got: Vec<String> = lines_of(&chars(s)).iter().map(text).collect();
        let want: Vec<String> = s.lines().map(|l| l.to_string()).collect();
        assert_eq!(got, want, "{:?}", s);
    }
}

#[test]
fn split_is_that_of_the_standard_library() {
    for s in ["", "a", "a,b", ",", "a,,b,", ",,"] {
        let got: Vec<String> = split_chars(&chars(s), ',').iter().map(text).collect();
        let want: Vec<String> = s.split(',').map(|l| l.to_string()).collect();
        assert_eq!(got, want, "{:?}", s);
    }
}

#[test]
fn trim_is_that_of_the_standard_library() {
    for s in ["", " ", "  a  ", "\t\na b\r\n", "\u{3000}x\u{a0}", "x", " \u{200b} "] {
        assert_eq!(text(&trim_chars(&chars(s))), s.trim(), "{:?}", s);
    }
    assert_eq!(to_chars("héllo"), chars("héllo"));
}

#[test]
fn sanitize_path_strips_whitespace_then_quotes() {
    assert_eq!(sanitize_path("  `src/main.rs`  "), "src/main.rs");
    assert_eq!(sanitize_path("\"a b.txt\""), "a b.txt");
    assert_eq!(sanitize_path("'x"), "x");
    assert_eq!(sanitize_path("x`\"'"), "x");
    assert_eq!(sanitize_path("` a `"), " a ");
    assert_eq!(sanitize_path("``"), "");
    assert_eq!(sanitize_path("a'b"), "a'b");
}

#[test]
fn command_header_needs_word_and_whitespace() {
    let header = |s: &str| parse_command_line(&chars(s)).map(|(c, a)| (c, text(&a)));
    assert_eq!(header("DELETE a.txt"), Some((Command::Delete, "a.txt".to_string())));
    assert_eq!(header("delete   a.txt  "), Some((Command::Delete, "a.txt".to_string())));
    assert_eq!(header("Create\tb"), Some((Command::Create, "b".to_string())));
    assert_eq!(header("oVeRwRiTe c"), Some((Command::Overwrite, "c".to_string())));
    assert_eq!(header("PATCH d"), Some((Command::Patch, "d".to_string())));
    assert_eq!(header("MOVE a to b"), Some((Command::Move, "a to b".to_string())));
    assert_eq!(header("DELETE "), Some((Command::Delete, "".to_string())));
    assert_eq!(header("DELETE"), None);
    assert_eq!(header("DELETEa.txt"), None);
    assert_eq!(header(" DELETE a.txt"), None);
    assert_eq!(header("REMOVE a.txt"), None);
    assert_eq!(header("CREATEX y"), None);
    assert_eq!(header(""), None);
}

#[test]
fn delete_and_move_are_standalone() {
    assert_eq!(parse("DELETE old.txt"), vec![delete("old.txt")]);
    assert_eq!(parse("MOVE a.rs to b.rs"), vec![moving("a.rs", "b.rs")]);
    assert_eq!(parse("move `a.rs` TO \"b.rs\""), vec![moving("a.rs", "b.rs")]);
}

#[test]
fn move_takes_the_last_separator() {
    assert_eq!(parse("MOVE notes to self.txt to archive/notes.txt"), vec![moving(
        "notes to self.txt",
        "archive/notes.txt"
    )]);
    assert_eq!(parse("MOVE a To b tO c"), vec![moving("a To b", "c")]);
}

#[test]
fn move_without_both_paths_is_dropped() {
    assert!(parse("MOVE a.txt").is_empty());
    assert!(parse("MOVE a.txt to ``").is_empty());
    assert!(parse("MOVE a.txtto b.txt").is_empty());
    assert!(parse("MOVE '' to b").is_empty());
}

#[test]
fn create_and_overwrite_take_the_fenced_payload() {
    let doc = "Some prose.\nCREATE src/new.rs\n\nHere it is:\n```rust\nfn main() {}\n\n// end\n```\ntrailing";
    assert_eq!(parse(doc), vec![overwrite("src/new.rs", "fn main() {}\n\n// end", true)]);
    let doc = "OVERWRITE a.txt\n```\nx\n```";
    assert_eq!(parse(doc), vec![overwrite("a.txt", "x", false)]);
    let doc = "OVERWRITE empty.txt\n```\n```";
    assert_eq!(parse(doc), vec![overwrite("empty.txt", "", false)]);
}

#[test]
fn nested_fences_stay_in_the_payload() {
    let doc = "CREATE README.md\n```markdown\n# Title\n```rust\nfn x() {}\n```\ndone\n```\nDELETE z";
    assert_eq!(
        parse(doc),
        vec![overwrite("README.md", "# Title\n```rust\nfn x() {}\n```\ndone", true), delete("z")]
    );
}

#[test]
fn indented_fence_lines_count() {
    let doc = "CREATE a\n  ```\nbody\n  ```  \nDELETE b";
    assert_eq!(parse(doc), vec![overwrite("a", "body", true), delete("b")]);
}

#[test]
fn commands_inside_a_payload_are_content() {
    let doc = "CREATE a.txt\n```\nDELETE b.txt\n```\n";
    assert_eq!(parse(doc), vec![overwrite("a.txt", "DELETE b.txt", true)]);
}

#[test]
fn pending_command_is_dropped_at_the_end() {
    assert!(parse("CREATE a.txt\nno fence follows").is_empty());
    assert!(parse("PATCH a.txt\n```\n<<<<<<< SEARCH\na\n=======\nb\n>>>>>>> REPLACE\n").is_empty());
}

#[test]
fn pending_command_is_dropped_by_another_header() {
    let doc = "CREATE a.txt\nOVERWRITE b.txt\n```\nx\n```";
    assert_eq!(parse(doc), vec![overwrite("b.txt", "x", false)]);
    let doc = "CREATE a.txt\nDELETE c.txt\n```\nx\n```";
    assert_eq!(parse(doc), vec![delete("c.txt")]);
}

#[test]
fn fence_without_pending_command_is_ignored() {
    let doc = "```\nDELETE inside.txt\n```\n";
    assert_eq!(parse(doc), vec![delete("inside.txt")]);
}

#[test]
fn patch_blocks_are_read_in_order() {
    let doc = "PATCH f.rs\n```rust\nintro\n<<<<<<< SEARCH\nold 1\n=======\nnew 1\n>>>>>>> REPLACE\nbetween\n<<<<<<< SEARCH\nold 2\nold 3\n=======\n>>>>>>> REPLACE\n```";
    assert_eq!(
        parse(doc),
        vec![patch("f.rs", &[("old 1", "new 1"), ("old 2\nold 3", "")], false)]
    );
}

#[test]
fn patch_with_blank_first_search_creates_the_file() {
    let doc = "PATCH new.txt\n```\n<<<<<<< SEARCH\n=======\nhello\n>>>>>>> REPLACE\n<<<<<<< SEARCH\nhello\n=======\nbye\n>>>>>>> REPLACE\n```";
    assert_eq!(parse(doc), vec![patch("new.txt", &[("", "hello"), ("hello", "bye")], true)]);
    let doc = "PATCH new.txt\n```\n<<<<<<< SEARCH\n   \t\n=======\nhello\n>>>>>>> REPLACE\n```";
    assert_eq!(parse(doc), vec![patch("new.txt", &[("   \t", "hello")], true)]);
    let doc = "PATCH old.txt\n```\n<<<<<<< SEARCH\nx\n=======\ny\n>>>>>>> REPLACE\n<<<<<<< SEARCH\n=======\nz\n>>>>>>> REPLACE\n```";
    assert_eq!(parse(doc), vec![patch("old.txt", &[("x", "y"), ("", "z")], false)]);
}

#[test]
fn patch_blocks_tolerate_carriage_returns() {
    let blocks = parse_all_search_replace_blocks(&chars(
        "<<<<<<< SEARCH\r\na\r\n=======\r\nb\r\n>>>>>>> REPLACE\r\n",
    ));
    let got: Vec<(String, String)> = blocks.iter().map(|(s, r)| (text(s), text(r))).collect();
    assert_eq!(got, vec![("a".to_string(), "b".to_string())]);
}

#[test]
fn patch_without_a_complete_block_is_dropped() {
    assert!(parse("PATCH t\n```\nno markers\n```").is_empty());
    assert!(parse("PATCH t\n```\n<<<<<<< SEARCH\na\n=======\nb\n```").is_empty());
    assert!(parse("PATCH t\n```\n<<<<<<< SEARCH\na\n>>>>>>> REPLACE\n```").is_empty());
    assert!(parse("PATCH t\n```\n<<<<<<< SEARCH a\n=======\nb\n>>>>>>> REPLACE\n```").is_empty());
}

#[test]
fn blocks_end_at_the_first_incomplete_one() {
    let doc = "PATCH t\n```\n<<<<<<< SEARCH\na\n=======\nb\n>>>>>>> REPLACE\n<<<<<<< SEARCH\nc\n=======\nd\n```";
    assert_eq!(parse(doc), vec![patch("t", &[("a", "b")], false)]);
}

#[test]
fn first_directive_for_a_path_wins() {
    let doc = "DELETE a.txt\nOVERWRITE a.txt\n```\nx\n```\nDELETE a.txt";
    assert_eq!(parse(doc), vec![delete("a.txt")]);
    let doc = "OVERWRITE a.txt\n```\nfirst\n```\nPATCH a.txt\n```\n<<<<<<< SEARCH\nx\n=======\ny\n>>>>>>> REPLACE\n```\nCREATE `a.txt`\n```\nthird\n```";
    assert_eq!(parse(doc), vec![overwrite("a.txt", "first", false)]);
}

#[test]
fn move_and_delete_of_one_path_collide() {
    assert_eq!(parse("MOVE a.txt to b.txt\nDELETE a.txt"), vec![moving("a.txt", "b.txt")]);
    assert_eq!(parse("DELETE a.txt\nMOVE a.txt to b.txt"), vec![delete("a.txt")]);
    assert_eq!(
        parse("MOVE a.txt to b.txt\nDELETE b.txt"),
        vec![moving("a.txt", "b.txt"), delete("b.txt")]
    );
}

#[test]
fn parsing_twice_gives_the_same() {
    let doc = "DELETE a\nMOVE b to c\nCREATE d\n```\nx\n```\nDELETE a\nPATCH e\n```\n<<<<<<< SEARCH\n1\n=======\n2\n>>>>>>> REPLACE\n```";
    let first = parse(doc);
    assert_eq!(first, parse(doc));
    assert_eq!(first.len(), 4);
}

#[test]
fn output_follows_the_first_header_of_each_key() {
    let doc = "DELETE z\nCREATE a\n```\nx\n```\nMOVE m to n\nDELETE b";
    assert_eq!(
        parse(doc),
        vec![delete("z"), overwrite("a", "x", true), moving("m", "n"), delete("b")]
    );
    let doc = "CREATE late\nDELETE early\nCREATE late\n```\nx\n```";
    assert_eq!(parse(doc), vec![overwrite("late", "x", true), delete("early")]);
}

#[test]
fn documents_with_carriage_returns() {
    let doc = "DELETE a.txt\r\nCREATE b.txt\r\n```\r\nline 1\r\nline 2\r\n```\r\n";
    assert_eq!(parse(doc), vec![delete("a.txt"), overwrite("b.txt", "line 1\nline 2", true)]);
}

#[test]
fn empty_and_plain_documents_hold_nothing() {
    assert!(parse("").is_empty());
    assert!(parse("Just some prose.\n\nNothing to do.").is_empty());
}

#[test]
fn parser_methods_agree_with_parse() {
    let doc = "DELETE a\nDELETE a\nCREATE b\n```\nx\n```";
    let p = MarkdownParser::new(doc);
    assert_eq!(p.parse_command_blocks(), vec![delete("a"), delete("a"), overwrite("b", "x", true)]);
    assert_eq!(
        p.process_command_block(Command::Move, "x to y", ""),
        Some(moving("x", "y"))
    );
    assert_eq!(p.process_command_block(Command::Patch, "x", "nothing"), None);
    assert_eq!(
        p.process_command_block(Command::Create, " 'p' ", "body"),
        Some(overwrite("p", "body", true))
    );
    assert_eq!(p.run(), parse(doc));
}
