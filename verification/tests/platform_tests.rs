use qdirstat::platform::{get_root_drive, list_of_available_drives, open_command, Platform};

#[test]
fn drive_names_follow_the_present_letters() {
    let mut present = vec![false; 26];
    present[0] = true;
    present[2] = true;
    present[25] = true;
    let drives = list_of_available_drives(&present);
    assert_eq!(drives, vec!["A:".to_string(), "C:".to_string(), "Z:".to_string()]);
}

#[test]
fn no_drive_present_gives_an_empty_list() {
    let present = vec![false; 26];
    assert!(list_of_available_drives(&present).is_empty());
}

#[test]
fn windows_root_appends_a_backslash() {
    assert_eq!(get_root_drive(Platform::Windows, "C:"), "C:\\");
}

#[test]
fn unix_roots_are_the_filesystem_root() {
    assert_eq!(get_root_drive(Platform::Unix, ""), "/");
    assert_eq!(get_root_drive(Platform::MacOs, ""), "/");
}

#[test]
fn open_command_per_platform() {
    assert_eq!(open_command(Platform::Windows), Some("explorer"));
    assert_eq!(open_command(Platform::MacOs), Some("open"));
    assert_eq!(open_command(Platform::Unix), Some("xdg-open"));
    assert_eq!(open_command(Platform::Unknown), None);
}
