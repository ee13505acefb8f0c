use repo_wizard::cli_service::{
    export_line, extended_search_path, get_shim_name, get_shim_script, install_message,
    profile_file_name, profile_needs_line, shell_kind, Platform, ShellKind,
};
use repo_wizard::file_search_service::{final_score, is_listed};
use repo_wizard::fs_utils::is_binary_content;
use repo_wizard::project_service::{node_precedes, text_less};
use repo_wizard::types::FileNode;
use repo_wizard::window::{
    plan_open_project, plan_second_instance, plan_startup, title_of, LaunchPlan, OpenPlan,
};

#[test]
fn launcher_names_and_scripts() {
    assert_eq!(get_shim_name(Platform::Unix), "repowizard");
    assert_eq!(get_shim_name(Platform::Windows), "repowizard.cmd");
    assert_eq!(
        get_shim_script("/opt/app/repo wizard", Platform::Unix),
        "#!/bin/sh\n\"/opt/app/repo wizard\" \"$@\" >/dev/null 2>&1 &"
    );
    assert_eq!(
        get_shim_script("C:\\app\\rw.exe", Platform::Windows),
        "@echo off\nstart \"\" \"C:\\app\\rw.exe\" %*"
    );
}

#[test]
fn shells_and_their_profiles() {
    assert_eq!(shell_kind("/usr/bin/fish"), ShellKind::Fish);
    assert_eq!(shell_kind("/bin/zsh"), ShellKind::Zsh);
    assert_eq!(shell_kind("/bin/bash"), ShellKind::Bash);
    assert_eq!(shell_kind("sh"), ShellKind::Other);
    assert_eq!(shell_kind(""), ShellKind::Other);
    assert_eq!(shell_kind("/opt/bash-tools/fish"), ShellKind::Fish);
    assert_eq!(shell_kind("/opt/zsh/bash"), ShellKind::Zsh);
    assert_eq!(profile_file_name(ShellKind::Fish), ".config/fish/config.fish");
    assert_eq!(profile_file_name(ShellKind::Zsh), ".zshrc");
    assert_eq!(profile_file_name(ShellKind::Bash), ".bashrc");
    assert_eq!(profile_file_name(ShellKind::Other), ".profile");
}

#[test]
fn lines_for_the_search_path() {
    assert_eq!(export_line(ShellKind::Fish, "/h/.repo-wizard/bin"), "\nfish_add_path \"/h/.repo-wizard/bin\"\n");
    for kind in [ShellKind::Zsh, ShellKind::Bash, ShellKind::Other] {
        assert_eq!(export_line(kind, "/h/bin"), "\nexport PATH=\"/h/bin:$PATH\"\n");
    }
    assert!(profile_needs_line("export PATH=/usr/bin", "/h/bin"));
    assert!(!profile_needs_line("x\nexport PATH=\"/h/bin:$PATH\"\n", "/h/bin"));
    assert!(profile_needs_line("", "/h/bin"));
    assert_eq!(extended_search_path("", "C:\\bin"), "C:\\bin");
    assert_eq!(extended_search_path("C:\\a;C:\\b", "C:\\bin"), "C:\\a;C:\\b;C:\\bin");
    assert!(install_message().starts_with("CLI 'repowizard' installed successfully."));
}

#[test]
fn text_order_is_that_of_the_standard_library() {
    let samples = ["", "a", "b", "ab", "aa", "B", "a\u{e9}", "a\u{10000}", "\u{e9}", "abc", "abd", "z"];
    for a in samples {
        for b in samples {
            assert_eq!(text_less(a, b), a < b, "{:?} {:?}", a, b);
        }
    }
}

fn node(name: &str, is_directory: bool) -> FileNode {
    FileNode { path: format!("/r/{}", name), name: name.to_string(), children: None, is_directory }
}

#[test]
fn directories_come_first_then_names_in_lower_case() {
    assert!(node_precedes(&node("zeta", true), &node("alpha.txt", false)));
    assert!(!node_precedes(&node("alpha.txt", false), &node("zeta", true)));
    assert!(node_precedes(&node("Alpha", false), &node("beta", false)));
    assert!(node_precedes(&node("alpha", true), &node("Beta", true)));
    assert!(!node_precedes(&node("Same", false), &node("same", false)));
    assert!(!node_precedes(&node("same", false), &node("Same", false)));
    assert!(!node_precedes(&node("b", true), &node("a", true)));
}

#[test]
fn best_score_of_an_entry() {
    assert_eq!(final_score(100, 50, 10, 5, false), 1100);
    assert_eq!(final_score(100, 50, 10, 5, true), 900);
    assert_eq!(final_score(0, 50, 10, 5, false), 50);
    assert_eq!(final_score(-50, -100, 3995, -1, false), 3995);
    assert_eq!(final_score(-50, -100, -50, 10000, false), 10000);
    assert_eq!(final_score(-50, -100, -50, -1, true), -1);
    assert!(is_listed(-10));
    assert!(!is_listed(-11));
    assert!(is_listed(0));
}

#[test]
fn a_zero_byte_marks_a_binary_file() {
    assert!(!is_binary_content(b""));
    assert!(!is_binary_content(b"plain text\n"));
    assert!(is_binary_content(&[0]));
    assert!(is_binary_content(&[b'a', b'b', 0, b'c']));
    assert!(is_binary_content(&[0x89, b'P', b'N', b'G', 0x0D, 0x0A, 0x1A, 0x0A, 0, 0]));
    assert!(!is_binary_content(&[0xFF, 0xFE, 0x01]));
}

#[test]
fn a_project_gets_a_window_or_comes_to_the_front() {
    let plan = plan_open_project(
        "/home/u/my \"proj\"",
        "project-x".to_string(),
        "my \"proj\"".to_string(),
        None,
        false,
    )
    .unwrap();
    assert_eq!(
        plan,
        OpenPlan::Create {
            label: "project-x".to_string(),
            title: "my \"proj\"".to_string(),
            init_script: "window.__RPO_WIZ_PROJECT_ROOT__ = \"/home/u/my \\\"proj\\\"\";".to_string(),
        }
    );
    let plan =
        plan_open_project("/p", "project-x".to_string(), "p".to_string(), None, true).unwrap();
    assert_eq!(plan, OpenPlan::Focus { label: "project-x".to_string() });
    let plan = plan_open_project(
        "/p",
        "project-x".to_string(),
        "p".to_string(),
        Some("main-1".to_string()),
        true,
    )
    .unwrap();
    assert_eq!(plan, OpenPlan::Focus { label: "main-1".to_string() });
    assert_eq!(title_of(Some("proj".to_string()), "/a/proj"), "proj");
    assert_eq!(title_of(None, "/"), "/");
}

#[test]
fn what_a_start_of_the_program_does() {
    let s = |x: &str| Some(x.to_string());
    assert_eq!(
        plan_second_instance(s("proj"), s("/abs/proj"), s("main")),
        LaunchPlan::OpenProject { path: "/abs/proj".to_string(), closes_main: false }
    );
    assert_eq!(
        plan_second_instance(s("proj"), None, None),
        LaunchPlan::OpenProject { path: "proj".to_string(), closes_main: false }
    );
    assert_eq!(
        plan_second_instance(None, None, s("main")),
        LaunchPlan::FocusBlank { label: "main".to_string() }
    );
    assert_eq!(plan_second_instance(None, s("/ignored"), None), LaunchPlan::CreateBlank);
    assert_eq!(
        plan_startup(Some(s("proj")), s("/abs/proj"), true),
        LaunchPlan::OpenProject { path: "/abs/proj".to_string(), closes_main: true }
    );
    assert_eq!(
        plan_startup(Some(s("proj")), None, false),
        LaunchPlan::OpenProject { path: "proj".to_string(), closes_main: true }
    );
    assert_eq!(plan_startup(Some(None), None, true), LaunchPlan::ShowMain);
    assert_eq!(plan_startup(Some(None), None, false), LaunchPlan::CreateBlank);
    assert_eq!(plan_startup(None, None, true), LaunchPlan::ShowMain);
    assert_eq!(plan_startup(None, None, false), LaunchPlan::Nothing);
}
