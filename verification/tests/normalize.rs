use cianticblog::normalize::{normalize_sync, Error};

#[test]
fn the_root_directory_is_normal() {
    assert_eq!(normalize_sync("/"), Ok("/".to_string()));
    assert_eq!(normalize_sync("/./"), Ok("/".to_string()));
    assert_eq!(normalize_sync("/.."), Ok("/".to_string()));
}

#[test]
fn a_missing_path_is_not_found() {
    assert_eq!(
        normalize_sync("/this/path/does/not/exist/anywhere"),
        Err(Error::NotFound)
    );
}

#[test]
fn a_path_that_the_file_system_refuses_has_failed() {
    assert!(matches!(normalize_sync("a\0b"), Err(Error::Failed(_))));
}

#[test]
fn a_path_that_can_name_nothing_fails_on_every_disk() {
    assert!(normalize_sync("").is_err());
    assert!(normalize_sync("\0").is_err());
    assert!(normalize_sync("/\0").is_err());
    assert!(normalize_sync("/tmp/\0/..").is_err());
}
