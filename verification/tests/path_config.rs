//! Behaviour of the path bookkeeping: the path, directory and file-name
//! parts stay mutually derivable, and reconfiguring releases the handle.

use fileaccess::events::OpenEvent;
use fileaccess::FileDriver;

#[test]
fn new_driver_has_defaults() {
    let d = FileDriver::new();
    assert_eq!(d.get_directory_name(), "");
    assert_eq!(d.get_file_name(), "");
    assert_eq!(d.get_path_name(), "");
    assert!(!d.is_open());
    assert!(!d.is_readable());
    assert_eq!(d.get_error_code(), 0);
    assert_eq!(d.get_error_string(), "");
    assert_eq!(d.get_report_string(), "");
}

#[test]
fn from_file_name_builds_path() {
    let d = FileDriver::from_file_name("logs", "today.txt");
    assert_eq!(d.get_directory_name(), "logs/");
    assert_eq!(d.get_file_name(), "today.txt");
    assert_eq!(d.get_path_name(), "logs/today.txt");
}

#[test]
fn from_file_name_keeps_trailing_slash() {
    let d = FileDriver::from_file_name("logs/", "today.txt");
    assert_eq!(d.get_directory_name(), "logs/");
    assert_eq!(d.get_path_name(), "logs/today.txt");
}

#[test]
fn from_directory_name_normalizes() {
    let d = FileDriver::from_directory_name("archive");
    assert_eq!(d.get_directory_name(), "archive/");
    assert_eq!(d.get_file_name(), "");
    assert_eq!(d.get_path_name(), "");
}

#[test]
fn from_path_name_splits_at_last_slash() {
    let d = FileDriver::from_path_name("a/b/c.txt");
    assert_eq!(d.get_directory_name(), "a/b/");
    assert_eq!(d.get_file_name(), "c.txt");
    assert_eq!(d.get_path_name(), "a/b/c.txt");
}

#[test]
fn from_path_name_without_slash_is_all_file() {
    let d = FileDriver::from_path_name("alone.txt");
    assert_eq!(d.get_directory_name(), "");
    assert_eq!(d.get_file_name(), "alone.txt");
    assert_eq!(d.get_path_name(), "alone.txt");
}

#[test]
fn set_path_name_rederives_parts() {
    let mut d = FileDriver::new();
    d.set_path_name("x/y.txt");
    assert_eq!(d.get_directory_name(), "x/");
    assert_eq!(d.get_file_name(), "y.txt");
    d.set_path_name("plain");
    assert_eq!(d.get_directory_name(), "");
    assert_eq!(d.get_file_name(), "plain");
}

#[test]
fn set_file_name_rebuilds_path() {
    let mut d = FileDriver::from_file_name("dir", "old.txt");
    d.set_file_name("new.txt");
    assert_eq!(d.get_path_name(), "dir/new.txt");
    assert_eq!(d.get_file_name(), "new.txt");
}

#[test]
fn set_directory_name_rebuilds_path() {
    let mut d = FileDriver::from_file_name("old", "f.txt");
    d.set_directory_name("new");
    assert_eq!(d.get_directory_name(), "new/");
    assert_eq!(d.get_path_name(), "new/f.txt");
}

#[test]
fn reconfiguring_releases_the_handle() {
    let mut d = FileDriver::from_path_name("a.txt");
    assert!(d.open_for_read(OpenEvent::Opened));
    assert!(d.is_open());
    d.set_file_name("b.txt");
    assert!(!d.is_open());
    assert!(!d.is_readable());
}

#[test]
fn file_exists_trusts_open_handle() {
    let mut d = FileDriver::from_path_name("a.txt");
    assert!(!d.file_exists(false));
    assert!(d.file_exists(true));
    assert!(d.open_for_read(OpenEvent::Opened));
    assert!(d.file_exists(false));
}

#[test]
fn debug_open_writes_report_line() {
    let mut d = FileDriver::from_path_name("a.txt");
    d.set_debug(true);
    assert!(d.open_for_read(OpenEvent::Opened));
    assert_eq!(d.get_report_string(), "File 'a.txt': opened\n");
}

#[test]
fn not_found_message_names_the_path() {
    let mut d = FileDriver::from_path_name("gone/away.txt");
    assert!(!d.open_for_read(OpenEvent::NotFound));
    assert_eq!(
        d.get_error_string(),
        "File 'gone/away.txt': Open Read failed! The file does not exist.\n"
    );
}
