use repo_wizard::backup::{BackupError, BackupStore};

fn project() -> Vec<(String, Vec<u8>)> {
    vec![
        ("src/main.rs".to_string(), b"fn main() {}".to_vec()),
        ("README.md".to_string(), b"# Title".to_vec()),
        ("logo.png".to_string(), vec![0x89, 0x50, 0xFF, 0x00]),
    ]
}

fn paths(v: &[&str]) -> Vec<String> {
    v.iter().map(|p| p.to_string()).collect()
}

#[test]
fn backup_copies_the_files_that_exist() {
    let mut store = BackupStore::new();
    store.backup_files("id-1", &project(), &paths(&["src/main.rs", "missing.txt", "logo.png"]));
    assert_eq!(store.revert_file_from_backup("id-1", "src/main.rs"), Ok(b"fn main() {}".to_vec()));
    assert_eq!(store.revert_file_from_backup("id-1", "logo.png"), Ok(vec![0x89, 0x50, 0xFF, 0x00]));
    assert_eq!(store.revert_file_from_backup("id-1", "missing.txt"), Err(BackupError::NotFound));
    assert_eq!(store.revert_file_from_backup("id-1", "README.md"), Err(BackupError::NotFound));
}

#[test]
fn backup_is_unchanged_by_later_edits() {
    let mut store = BackupStore::new();
    let mut files = project();
    store.backup_files("id-1", &files, &paths(&["README.md"]));
    files[1].1 = b"changed".to_vec();
    store.backup_files("id-2", &files, &paths(&["README.md"]));
    assert_eq!(store.read_file_from_backup("id-1", "README.md"), Ok("# Title".to_string()));
    assert_eq!(store.read_file_from_backup("id-2", "README.md"), Ok("changed".to_string()));
}

#[test]
fn reading_needs_the_backup_the_path_and_text() {
    let mut store = BackupStore::default();
    assert_eq!(store.read_file_from_backup("nothing", "a"), Err(BackupError::NotFound));
    store.backup_files("id-1", &project(), &paths(&["logo.png", "README.md"]));
    assert_eq!(store.read_file_from_backup("id-1", "logo.png"), Err(BackupError::NotText));
    assert_eq!(store.read_file_from_backup("id-1", "README.md"), Ok("# Title".to_string()));
    assert_eq!(store.read_file_from_backup("id-1", "src/main.rs"), Err(BackupError::NotFound));
    assert_eq!(store.read_file_from_backup("id-2", "README.md"), Err(BackupError::NotFound));
    assert_eq!(store.revert_file_from_backup("id-2", "README.md"), Err(BackupError::NotFound));
}

#[test]
fn deleting_a_backup_twice_is_deleting_it_once() {
    let mut store = BackupStore::new();
    store.backup_files("id-1", &project(), &paths(&["README.md"]));
    store.backup_files("id-2", &project(), &paths(&["src/main.rs"]));
    store.delete_backup("id-1");
    assert_eq!(store.read_file_from_backup("id-1", "README.md"), Err(BackupError::NotFound));
    assert_eq!(store.read_file_from_backup("id-2", "src/main.rs"), Ok("fn main() {}".to_string()));
    store.delete_backup("id-1");
    store.delete_backup("never there");
    assert_eq!(store.read_file_from_backup("id-2", "src/main.rs"), Ok("fn main() {}".to_string()));
    store.delete_backup("id-2");
    assert_eq!(store.read_file_from_backup("id-2", "src/main.rs"), Err(BackupError::NotFound));
}

#[test]
fn backup_under_an_identifier_in_use_adds_to_it() {
    let mut store = BackupStore::new();
    let mut files = project();
    store.backup_files("id", &files, &paths(&["README.md", "src/main.rs"]));
    files[1].1 = b"second".to_vec();
    store.backup_files("id", &files, &paths(&["README.md", "logo.png"]));
    assert_eq!(store.read_file_from_backup("id", "README.md"), Ok("second".to_string()));
    assert_eq!(store.read_file_from_backup("id", "src/main.rs"), Ok("fn main() {}".to_string()));
    assert_eq!(store.revert_file_from_backup("id", "logo.png"), Ok(vec![0x89, 0x50, 0xFF, 0x00]));
}

#[test]
fn backup_of_nothing_still_exists_and_is_empty() {
    let mut store = BackupStore::new();
    store.backup_files("empty", &project(), &paths(&[]));
    assert_eq!(store.revert_file_from_backup("empty", "README.md"), Err(BackupError::NotFound));
    store.backup_files("twice", &project(), &paths(&["README.md", "README.md"]));
    assert_eq!(store.read_file_from_backup("twice", "README.md"), Ok("# Title".to_string()));
}
