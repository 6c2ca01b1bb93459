use taxstud_core::errors::{map_file_load_error, map_file_save_error, map_revert_error};

fn triple(a: &str, b: &str, c: &str) -> (String, String, String) {
    (a.to_string(), b.to_string(), c.to_string())
}

#[test]
fn load_errors_are_told_apart_by_their_text() {
    assert_eq!(
        map_file_load_error("Validation failed:\nx at root", "/tmp/a.json"),
        triple("Validation Error", "The taxonomy file has validation errors.", "Validation failed:\nx at root")
    );
    assert_eq!(
        map_file_load_error("No such file or directory (os error 2)", "/tmp/a.json"),
        triple(
            "File Not Found",
            "The file could not be found.",
            "Path: /tmp/a.json\n\nPlease verify the file exists and you have permission to read it."
        )
    );
    assert_eq!(
        map_file_load_error("Permission denied (os error 13)", "/tmp/a.json"),
        triple(
            "Permission Denied",
            "Permission denied.",
            "You don't have permission to read this file:\n/tmp/a.json"
        )
    );
    assert_eq!(
        map_file_load_error("expected value at line 1", "/tmp/a.json"),
        triple("Error Loading File", "Failed to load taxonomy file.", "expected value at line 1")
    );
}

#[test]
fn the_first_matching_kind_wins() {
    let (title, _, _) = map_file_load_error("Permission denied; Validation failed", "p");
    assert_eq!(title, "Validation Error");
    let (title, _, _) = map_file_save_error("No space left; Permission denied; No file path set", None);
    assert_eq!(title, "No File Path");
    let (title, _, _) = map_revert_error("Permission denied, No such file", "p");
    assert_eq!(title, "File Not Found");
}

#[test]
fn save_errors_are_told_apart_by_their_text() {
    assert_eq!(
        map_file_save_error("No file path set", Some("x")),
        triple(
            "No File Path",
            "No file path is set for this taxonomy.",
            "Please use 'Save As...' to choose a location for this file."
        )
    );
    assert_eq!(
        map_file_save_error("Permission denied (os error 13)", Some("/data/t.json")),
        triple("Permission Denied", "Permission denied.", "You don't have permission to write to:\n/data/t.json")
    );
    assert_eq!(
        map_file_save_error("Permission denied (os error 13)", None),
        triple("Permission Denied", "Permission denied.", "You don't have permission to write to this file.")
    );
    assert_eq!(
        map_file_save_error("No space left on device (os error 28)", None),
        triple("Disk Full", "Disk full.", "There is no space left on the device to save the file.")
    );
    assert_eq!(
        map_file_save_error("No data to save", None),
        triple("Error Saving File", "Failed to save taxonomy file.", "No data to save")
    );
}

#[test]
fn revert_errors_are_told_apart_by_their_text() {
    assert_eq!(
        map_revert_error("Validation failed: x", "f.json"),
        triple("Validation Error", "The taxonomy file has validation errors.", "Validation failed: x")
    );
    assert_eq!(
        map_revert_error("No such file or directory", "f.json"),
        triple(
            "File Not Found",
            "The file could not be found.",
            "Path: f.json\n\nThe file may have been moved or deleted."
        )
    );
    assert_eq!(
        map_revert_error("Permission denied", "f.json"),
        triple("Permission Denied", "Permission denied.", "You don't have permission to read this file:\nf.json")
    );
    assert_eq!(
        map_revert_error("", "f.json"),
        triple("Error Reverting File", "Failed to reload taxonomy file.", "")
    );
}
