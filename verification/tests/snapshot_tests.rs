use fs_inspect::{EntityKind, FsEntry, FsError, FsSnapshot, LinuxEntity};

fn entity(name: &str, kind: EntityKind, permission: u16) -> LinuxEntity {
    LinuxEntity {
        entity_name: name.to_string(),
        entity_type: kind,
        owner: "root".to_string(),
        group: "root".to_string(),
        hardlink: 1,
        permission,
        size: 42,
        last_change_date: "Jan 1 00:00".to_string(),
    }
}

fn entry(path: &[&str], kind: EntityKind, permission: u16) -> FsEntry {
    FsEntry {
        path: path.iter().map(|s| s.to_string()).collect(),
        meta: entity(path.last().unwrap(), kind, permission),
    }
}

fn path(components: &[&str]) -> Vec<String> {
    components.iter().map(|s| s.to_string()).collect()
}

/// A snapshot of a working directory holding a `Cargo.toml` file and a
/// `src` directory with one file in it.
fn workdir_snapshot() -> FsSnapshot {
    FsSnapshot {
        entries: vec![
            entry(&["Cargo.toml"], EntityKind::File, 644),
            entry(&["src"], EntityKind::Directory, 755),
            entry(&["src", "lib.rs"], EntityKind::File, 644),
        ],
    }
}

#[test]
fn test_is_file() {
    assert_eq!(true, workdir_snapshot().is_file(&path(&["Cargo.toml"])));
}

#[test]
fn test_is_folder() {
    assert_eq!(false, workdir_snapshot().is_folder(&path(&["Cargo.toml"])));
}

#[test]
fn test_is_symlink() {
    let snap = FsSnapshot {
        entries: vec![
            entry(&["sys"], EntityKind::Directory, 755),
            entry(&["sys", "dev"], EntityKind::Directory, 755),
            entry(&["sys", "dev", "block"], EntityKind::Directory, 755),
            entry(&["sys", "dev", "block", "1:0"], EntityKind::Symlink, 777),
        ],
    };

    assert_eq!(true, snap.is_symlink(&path(&["sys", "dev", "block", "1:0"])));
}

#[test]
fn test_is_exist() {
    assert_eq!(false, workdir_snapshot().is_exist(&path(&["dfsgdfsgd"])));
}

#[test]
fn test_is_exist_present() {
    assert_eq!(true, workdir_snapshot().is_exist(&path(&["src", "lib.rs"])));
}

#[test]
fn test_file_info() {
    let info = workdir_snapshot().file_info(&path(&["src", "lib.rs"]));
    println!("Check lib.rs file: {:#?}", info);

    let info = info.unwrap();
    assert_eq!(info.entity_name, "lib.rs");
    assert_eq!(info.entity_type, EntityKind::File);
}

#[test]
fn test_file_info_round_trip() {
    // Build a tree holding one known file, then read it back.
    let snap = FsSnapshot {
        entries: vec![
            entry(&["docs"], EntityKind::Directory, 755),
            entry(&["docs", "notes.txt"], EntityKind::File, 640),
        ],
    };

    let info = snap.file_info(&path(&["docs", "notes.txt"])).unwrap();
    assert_eq!(info.entity_name, "notes.txt");
    assert_eq!(info.entity_type, EntityKind::File);
    assert_eq!(info.permission, 640);
}

#[test]
fn test_file_info_on_directory() {
    let result = workdir_snapshot().file_info(&path(&["src"]));

    assert_eq!(result.err(), Some(FsError::WrongEntityKind));
}

#[test]
fn test_file_info_absent() {
    let result = workdir_snapshot().file_info(&path(&["nope.txt"]));

    assert_eq!(result.err(), Some(FsError::NotFound));
}

#[test]
fn test_current_folder_info() {
    let entities = workdir_snapshot().current_folder_info();
    println!("Current Folder's Entities: {:#?}", entities);

    assert_eq!(entities.len(), 2);
    assert_eq!(entities[0].entity_name, "Cargo.toml");
    assert_eq!(entities[1].entity_name, "src");
}

#[test]
fn test_other_folder_info() {
    let entities = workdir_snapshot().other_folder_info(&path(&["src"]));
    println!("src folder's entities: {:#?}", entities);

    let entities = entities.unwrap();
    assert_eq!(entities.len(), 1);
    assert_eq!(entities[0].entity_name, "lib.rs");
    assert_eq!(entities[0].entity_type, EntityKind::File);
}

#[test]
fn test_other_folder_info_on_file() {
    let result = workdir_snapshot().other_folder_info(&path(&["Cargo.toml"]));

    assert_eq!(result.err(), Some(FsError::NotADirectory));
}

#[test]
fn test_other_folder_info_absent() {
    let result = workdir_snapshot().other_folder_info(&path(&["missing"]));

    assert_eq!(result.err(), Some(FsError::NotFound));
}

#[test]
fn test_list_then_read_back() {
    // Every listed child, read back under its parent, is the same entity.
    let snap = workdir_snapshot();
    let listed = snap.other_folder_info(&path(&["src"])).unwrap();

    for child in &listed {
        let mut child_path = path(&["src"]);
        child_path.push(child.entity_name.clone());
        let read = snap.file_info(&child_path).unwrap();
        assert_eq!(read.entity_name, child.entity_name);
        assert_eq!(read.entity_type, child.entity_type);
        assert_eq!(read.permission, child.permission);
        assert_eq!(read.size, child.size);
    }
}

#[test]
fn test_check_wf_accepts_good_snapshot() {
    assert_eq!(true, workdir_snapshot().check_wf());
    assert_eq!(true, FsSnapshot { entries: vec![] }.check_wf());
}

#[test]
fn test_check_wf_rejects_duplicate_path() {
    let snap = FsSnapshot {
        entries: vec![
            entry(&["a.txt"], EntityKind::File, 644),
            entry(&["a.txt"], EntityKind::File, 600),
        ],
    };

    assert_eq!(false, snap.check_wf());
}

#[test]
fn test_check_wf_rejects_separator_in_component() {
    let snap = FsSnapshot { entries: vec![entry(&["a/b"], EntityKind::File, 644)] };

    assert_eq!(false, snap.check_wf());
}

#[test]
fn test_check_wf_rejects_missing_parent() {
    let snap = FsSnapshot {
        entries: vec![entry(&["ghost", "child.txt"], EntityKind::File, 644)],
    };

    assert_eq!(false, snap.check_wf());
}

#[test]
fn test_check_wf_rejects_file_as_parent() {
    let snap = FsSnapshot {
        entries: vec![
            entry(&["notes"], EntityKind::File, 644),
            entry(&["notes", "inner.txt"], EntityKind::File, 644),
        ],
    };

    assert_eq!(false, snap.check_wf());
}

#[test]
fn test_check_wf_rejects_name_mismatch() {
    let mut bad = entry(&["a.txt"], EntityKind::File, 644);
    bad.meta.entity_name = "b.txt".to_string();
    let snap = FsSnapshot { entries: vec![bad] };

    assert_eq!(false, snap.check_wf());
}

#[test]
fn test_empty_snapshot_lists_nothing() {
    let snap = FsSnapshot { entries: vec![] };

    assert_eq!(snap.current_folder_info().len(), 0);
    assert_eq!(false, snap.is_exist(&path(&["anything"])));
}
