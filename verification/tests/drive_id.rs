use phaneros::drive_id::{normalize_drive_id, DriveIdError};

#[test]
fn lowercases_and_replaces_spaces() {
    assert_eq!(normalize_drive_id("My Documents").unwrap(), "my-documents");
}

#[test]
fn collapses_repeated_separators() {
    assert_eq!(normalize_drive_id("My   Work_Drive!!").unwrap(), "my-work-drive");
}

#[test]
fn trims_leading_and_trailing_punctuation() {
    assert_eq!(normalize_drive_id("  -Default- ").unwrap(), "default");
}

#[test]
fn already_kebab_case_is_unchanged() {
    assert_eq!(normalize_drive_id("work-drive").unwrap(), "work-drive");
}

#[test]
fn all_punctuation_is_empty() {
    assert_eq!(normalize_drive_id("   !!! "), Err(DriveIdError::Empty));
}

#[test]
fn empty_string_is_empty() {
    assert_eq!(normalize_drive_id(""), Err(DriveIdError::Empty));
}

#[test]
fn normalizing_twice_changes_nothing() {
    let once = normalize_drive_id("  Team -- Photos 2024 ").unwrap();
    assert_eq!(once, "team-photos-2024");
    assert_eq!(normalize_drive_id(&once).unwrap(), once);
}

#[test]
fn error_message_names_the_rule() {
    assert_eq!(
        DriveIdError::Empty.message(),
        "drive id must contain at least one letter or digit"
    );
}
