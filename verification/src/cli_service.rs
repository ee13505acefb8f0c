//! What installing the command-line launcher writes: the launcher script and
//! the line that puts its directory on the search path of a shell.

use crate::text::{append, find, find_index_from, from_chars, to_chars};
use vstd::prelude::*;

verus! {

/// The platforms that a launcher is written for.
#[derive(Clone, Copy, Debug, PartialEq, Eq)]
pub enum Platform {
    Unix,
    Windows,
}

/// The shells whose profile is known.
#[derive(Clone, Copy, Debug, PartialEq, Eq)]
pub enum ShellKind {
    Fish,
    Zsh,
    Bash,
    Other,
}

/// The file name of the launcher.
pub open spec fn shim_name(platform: Platform) -> Seq<char> {
    match platform {
        Platform::Unix => "repowizard"@,
        Platform::Windows => "repowizard.cmd"@,
    }
}

/// The file name of the launcher on a platform.
pub fn get_shim_name(platform: Platform) -> (r: String)
    ensures
        r@ == shim_name(platform),
{
    match platform {
        Platform::Unix => "repowizard".to_owned(),
        Platform::Windows => "repowizard.cmd".to_owned(),
    }
}

/// The script of the launcher: it starts the program at `exe_path` with the
/// arguments it was given and does not wait for it.
pub open spec fn shim_script(exe_path: Seq<char>, platform: Platform) -> Seq<char> {
    match platform {
        Platform::Unix => "#!/bin/sh\n\""@ + exe_path + "\" \"$@\" >/dev/null 2>&1 &"@,
        Platform::Windows => "@echo off\nstart \"\" \""@ + exe_path + "\" %*"@,
    }
}

/// Writes the script of the launcher.
pub fn get_shim_script(exe_path: &str, platform: Platform) -> (r: String)
    ensures
        r@ == shim_script(exe_path@, platform),
{
    let path = to_chars(exe_path);
    match platform {
        Platform::Unix => {
            let mut out = to_chars("#!/bin/sh\n\"");
            append(&mut out, &path);
            append(&mut out, &to_chars("\" \"$@\" >/dev/null 2>&1 &"));
            from_chars(&out)
        },
        Platform::Windows => {
            let mut out = to_chars("@echo off\nstart \"\" \"");
            append(&mut out, &path);
            append(&mut out, &to_chars("\" %*"));
            from_chars(&out)
        },
    }
}

/// The kind of a shell, by the name of its program: the first of `fish`,
/// `zsh` and `bash` that the name holds.
pub open spec fn shell_kind_of(shell: Seq<char>) -> ShellKind {
    if find(shell, "fish"@) is Some {
        ShellKind::Fish
    } else if find(shell, "zsh"@) is Some {
        ShellKind::Zsh
    } else if find(shell, "bash"@) is Some {
        ShellKind::Bash
    } else {
        ShellKind::Other
    }
}

/// Whether `text` holds `word`.
pub fn holds(text: &Vec<char>, word: &str) -> (r: bool)
    ensures
        r == (find(text@, word@) is Some),
{
    find_index_from(text, &to_chars(word), 0).is_some()
}

/// Tells the kind of a shell from the name of its program.
pub fn shell_kind(shell: &str) -> (r: ShellKind)
    ensures
        r == shell_kind_of(shell@),
{
    let name = to_chars(shell);
    if holds(&name, "fish") {
        ShellKind::Fish
    } else if holds(&name, "zsh") {
        ShellKind::Zsh
    } else if holds(&name, "bash") {
        ShellKind::Bash
    } else {
        ShellKind::Other
    }
}

/// The profile of a shell, relative to the home directory.
pub open spec fn profile_name(kind: ShellKind) -> Seq<char> {
    match kind {
        ShellKind::Fish => ".config/fish/config.fish"@,
        ShellKind::Zsh => ".zshrc"@,
        ShellKind::Bash => ".bashrc"@,
        ShellKind::Other => ".profile"@,
    }
}

/// The profile that a shell reads when it starts, relative to the home directory.
pub fn profile_file_name(kind: ShellKind) -> (r: String)
    ensures
        r@ == profile_name(kind),
{
    match kind {
        ShellKind::Fish => ".config/fish/config.fish".to_owned(),
        ShellKind::Zsh => ".zshrc".to_owned(),
        ShellKind::Bash => ".bashrc".to_owned(),
        ShellKind::Other => ".profile".to_owned(),
    }
}

/// The line that puts a directory on the search path, in the language of the shell.
pub open spec fn export_line_of(kind: ShellKind, shim_dir: Seq<char>) -> Seq<char> {
    match kind {
        ShellKind::Fish => "\nfish_add_path \""@ + shim_dir + "\"\n"@,
        _ => "\nexport PATH=\""@ + shim_dir + ":$PATH\"\n"@,
    }
}

/// Writes the line that puts the launcher's directory on the search path.
pub fn export_line(kind: ShellKind, shim_dir: &str) -> (r: String)
    ensures
        r@ == export_line_of(kind, shim_dir@),
{
    let dir = to_chars(shim_dir);
    match kind {
        ShellKind::Fish => {
            let mut out = to_chars("\nfish_add_path \"");
            append(&mut out, &dir);
            append(&mut out, &to_chars("\"\n"));
            from_chars(&out)
        },
        _ => {
            let mut out = to_chars("\nexport PATH=\"");
            append(&mut out, &dir);
            append(&mut out, &to_chars(":$PATH\"\n"));
            from_chars(&out)
        },
    }
}

/// Whether a profile still needs the line: it does unless it names the
/// launcher's directory already.
pub fn profile_needs_line(profile: &str, shim_dir: &str) -> (r: bool)
    ensures
        r == (find(profile@, shim_dir@) is None),
{
    !holds(&to_chars(profile), shim_dir)
}

/// A search path with one more directory at its end.
pub open spec fn path_with(current: Seq<char>, shim_dir: Seq<char>) -> Seq<char> {
    if current.len() == 0 {
        shim_dir
    } else {
        current + ";"@ + shim_dir
    }
}

/// The search path of Windows with the launcher's directory at its end.
pub fn extended_search_path(current: &str, shim_dir: &str) -> (r: String)
    ensures
        r@ == path_with(current@, shim_dir@),
{
    let mut out = to_chars(current);
    if out.len() == 0 {
        return shim_dir.to_owned();
    }
    append(&mut out, &to_chars(";"));
    append(&mut out, &to_chars(shim_dir));
    from_chars(&out)
}

/// What a successful installation reports.
pub fn install_message() -> (r: String)
    ensures
        r@
            == "CLI 'repowizard' installed successfully. Please restart your terminal for the changes to take effect."@,
{
    "CLI 'repowizard' installed successfully. Please restart your terminal for the changes to take effect.".to_owned()
}

} // verus!
