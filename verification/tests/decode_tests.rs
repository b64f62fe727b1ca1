use fs_inspect::{decode_permission_string, EntityKind, FsError};

#[test]
fn test_decode_permission_string() {
    let perm_str = decode_permission_string("-rw-r--r--").unwrap();

    assert_eq!(perm_str.permission, 644 as u16);
    assert_eq!(perm_str.entity_type.text(), "file");
}

#[test]
fn test_decode_directory() {
    let perm_str = decode_permission_string("drwxr-xr-x").unwrap();

    assert_eq!(perm_str.entity_type, EntityKind::Directory);
    assert_eq!(perm_str.permission, 755);
}

#[test]
fn test_decode_symlink() {
    let perm_str = decode_permission_string("lrwxrwxrwx").unwrap();

    assert_eq!(perm_str.entity_type, EntityKind::Symlink);
    assert_eq!(perm_str.permission, 777);
}

#[test]
fn test_decode_unknown_type_char() {
    let result = decode_permission_string("?rw-r--r--");

    assert_eq!(result, Err(FsError::MalformedModeString));
}

#[test]
fn test_decode_short_string() {
    assert_eq!(decode_permission_string("-rw-r"), Err(FsError::MalformedModeString));
    assert_eq!(decode_permission_string(""), Err(FsError::MalformedModeString));
    assert_eq!(decode_permission_string("-rw-r--r-"), Err(FsError::MalformedModeString));
}

#[test]
fn test_decode_deterministic() {
    let first = decode_permission_string("drwxr-xr-x");
    let second = decode_permission_string("drwxr-xr-x");

    assert_eq!(first, second);
}

#[test]
fn test_decode_special_bits_ignored() {
    // An `s` in an execute position is not `x`, so it contributes nothing.
    let perm_str = decode_permission_string("-rwsr--r--").unwrap();

    assert_eq!(perm_str.permission, 644);
}

#[test]
fn test_decode_extra_characters_ignored() {
    let perm_str = decode_permission_string("-rw-r--r--.").unwrap();

    assert_eq!(perm_str.entity_type, EntityKind::File);
    assert_eq!(perm_str.permission, 644);
}

#[test]
fn test_decode_no_permissions() {
    let perm_str = decode_permission_string("----------").unwrap();

    assert_eq!(perm_str.entity_type, EntityKind::File);
    assert_eq!(perm_str.permission, 0);
}
