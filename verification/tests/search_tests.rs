use fs_inspect::metadata::base_name;
use fs_inspect::search::{
    find, find_file_in_custom_dir_and_return_path, find_file_return_path,
    find_folder_in_custom_dir_and_return_path, find_folder_return_path, join_path,
};
use fs_inspect::{EntityKind, FsEntry, FsError, FsSnapshot, LinuxEntity};

fn entity(name: &str, kind: EntityKind, permission: u16) -> LinuxEntity {
    LinuxEntity {
        entity_name: name.to_string(),
        entity_type: kind,
        owner: "root".to_string(),
        group: "root".to_string(),
        hardlink: 1,
        permission,
        size: 42,
        last_change_date: "Jan 1 00:00".to_string(),
    }
}

fn entry(path: &[&str], kind: EntityKind, permission: u16) -> FsEntry {
    FsEntry {
        path: path.iter().map(|s| s.to_string()).collect(),
        meta: entity(path.last().unwrap(), kind, permission),
    }
}

fn path(components: &[&str]) -> Vec<String> {
    components.iter().map(|s| s.to_string()).collect()
}

/// A snapshot of a small system-like tree: a `home` directory with a user
/// in it, and a binary named `cargo` in two places.
fn system_snapshot() -> FsSnapshot {
    FsSnapshot {
        entries: vec![
            entry(&["home"], EntityKind::Directory, 755),
            entry(&["home", "user"], EntityKind::Directory, 755),
            entry(&["home", "user", "cargo"], EntityKind::File, 755),
            entry(&["usr"], EntityKind::Directory, 755),
            entry(&["usr", "bin"], EntityKind::Directory, 755),
            entry(&["usr", "bin", "cargo"], EntityKind::File, 755),
        ],
    }
}

#[test]
fn test_find_file_return_path() {
    assert_eq!(true, find_file_return_path(&system_snapshot(), "cargo").is_ok());
    assert_eq!(false, find_file_return_path(&system_snapshot(), "hdichurhfhdhdj").is_ok());
}

#[test]
fn test_find_folder_return_path() {
    assert_eq!(true, find_folder_return_path(&system_snapshot(), "home").is_ok());
    assert_eq!(false, find_folder_return_path(&system_snapshot(), "ufhfuhdh").is_ok());
}

#[test]
fn test_find_file_exact_paths() {
    let found = find_file_return_path(&system_snapshot(), "cargo").unwrap();

    assert_eq!(found, vec!["/home/user/cargo".to_string(), "/usr/bin/cargo".to_string()]);
}

#[test]
fn test_find_folder_exact_paths() {
    let found = find_folder_return_path(&system_snapshot(), "bin").unwrap();

    assert_eq!(found, vec!["/usr/bin".to_string()]);
}

#[test]
fn test_find_in_custom_dir_scopes_the_search() {
    let snap = system_snapshot();

    let scoped = find_file_in_custom_dir_and_return_path(&snap, &path(&["usr"]), "cargo");
    assert_eq!(scoped.unwrap(), vec!["/usr/bin/cargo".to_string()]);

    let missing = find_file_in_custom_dir_and_return_path(&snap, &path(&["home"]), "bash");
    assert_eq!(missing, Err(FsError::NotFound));
}

#[test]
fn test_find_folder_in_custom_dir() {
    let snap = system_snapshot();

    let found = find_folder_in_custom_dir_and_return_path(&snap, &path(&["usr"]), "bin");
    assert_eq!(found.unwrap(), vec!["/usr/bin".to_string()]);
}

#[test]
fn test_find_kind_filter() {
    // `home` exists, but only as a directory: a file search misses it.
    let result = find_file_return_path(&system_snapshot(), "home");

    assert_eq!(result, Err(FsError::NotFound));
}

#[test]
fn test_find_respects_kind_argument() {
    let snap = system_snapshot();

    let as_dir = find(&snap, &path(&[]), "user", EntityKind::Directory);
    assert_eq!(as_dir.unwrap(), vec!["/home/user".to_string()]);

    let as_symlink = find(&snap, &path(&[]), "user", EntityKind::Symlink);
    assert_eq!(as_symlink, Err(FsError::NotFound));
}

#[test]
fn test_find_returned_base_names_match() {
    let found = find_file_return_path(&system_snapshot(), "cargo").unwrap();

    for p in &found {
        assert_eq!(base_name(p), "cargo");
    }
}

#[test]
fn test_join_path() {
    assert_eq!(join_path(&path(&["a", "b", "c"])), "/a/b/c");
    assert_eq!(join_path(&path(&[])), "");
}

#[test]
fn test_base_name() {
    assert_eq!(base_name("a/b/c"), "c");
    assert_eq!(base_name("abc"), "abc");
    assert_eq!(base_name("a/"), "");
    assert_eq!(base_name(""), "");
    assert_eq!(base_name("/etc/passwd"), "passwd");
}

#[test]
fn test_entity_kind_text() {
    assert_eq!(EntityKind::File.text(), "file");
    assert_eq!(EntityKind::Directory.text(), "folder");
    assert_eq!(EntityKind::Symlink.text(), "symlink");
}
