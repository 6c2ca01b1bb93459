//! What to tell the user when a file cannot be loaded, saved or reloaded:
//! a title, a message and the details, chosen by what the error text holds.

use crate::text::{contains_text, is_substring};
use vstd::prelude::*;
use vstd::string::StringExecFns;

verus! {

/// A title, a message and details.
pub type Notice = (Seq<char>, Seq<char>, Seq<char>);

/// The notice for a file that failed to load.
pub open spec fn load_notice(error: Seq<char>, path: Seq<char>) -> Notice {
    if is_substring("Validation failed"@, error) {
        ("Validation Error"@, "The taxonomy file has validation errors."@, error)
    } else if is_substring("No such file"@, error) {
        (
            "File Not Found"@,
            "The file could not be found."@,
            "Path: "@ + path
                + "\n\nPlease verify the file exists and you have permission to read it."@,
        )
    } else if is_substring("Permission denied"@, error) {
        (
            "Permission Denied"@,
            "Permission denied."@,
            "You don't have permission to read this file:\n"@ + path,
        )
    } else {
        ("Error Loading File"@, "Failed to load taxonomy file."@, error)
    }
}

/// The notice for a file that failed to save.
pub open spec fn save_notice(error: Seq<char>, path: Option<Seq<char>>) -> Notice {
    if is_substring("No file path set"@, error) {
        (
            "No File Path"@,
            "No file path is set for this taxonomy."@,
            "Please use 'Save As...' to choose a location for this file."@,
        )
    } else if is_substring("Permission denied"@, error) {
        (
            "Permission Denied"@,
            "Permission denied."@,
            match path {
                Some(p) => "You don't have permission to write to:\n"@ + p,
                None => "You don't have permission to write to this file."@,
            },
        )
    } else if is_substring("No space left"@, error) {
        (
            "Disk Full"@,
            "Disk full."@,
            "There is no space left on the device to save the file."@,
        )
    } else {
        ("Error Saving File"@, "Failed to save taxonomy file."@, error)
    }
}

/// The notice for a file that failed to reload.
pub open spec fn revert_notice(error: Seq<char>, path: Seq<char>) -> Notice {
    if is_substring("Validation failed"@, error) {
        ("Validation Error"@, "The taxonomy file has validation errors."@, error)
    } else if is_substring("No such file"@, error) {
        (
            "File Not Found"@,
            "The file could not be found."@,
            "Path: "@ + path + "\n\nThe file may have been moved or deleted."@,
        )
    } else if is_substring("Permission denied"@, error) {
        (
            "Permission Denied"@,
            "Permission denied."@,
            "You don't have permission to read this file:\n"@ + path,
        )
    } else {
        ("Error Reverting File"@, "Failed to reload taxonomy file."@, error)
    }
}

fn text(s: &str) -> (r: String)
    ensures
        r@ == s@,
{
    s.to_owned()
}

fn joined(a: &str, b: &str) -> (r: String)
    ensures
        r@ == a@ + b@,
{
    let mut r = a.to_owned();
    r.append(b);
    r
}

/// The title, message and details for an error met while loading `path`.
pub fn map_file_load_error(error_string: &str, path: &str) -> (r: (String, String, String))
    ensures
        (r.0@, r.1@, r.2@) == load_notice(error_string@, path@),
{
    if contains_text(error_string, "Validation failed") {
        (
            text("Validation Error"),
            text("The taxonomy file has validation errors."),
            text(error_string),
        )
    } else if contains_text(error_string, "No such file") {
        let mut details = joined("Path: ", path);
        details.append("\n\nPlease verify the file exists and you have permission to read it.");
        (text("File Not Found"), text("The file could not be found."), details)
    } else if contains_text(error_string, "Permission denied") {
        (
            text("Permission Denied"),
            text("Permission denied."),
            joined("You don't have permission to read this file:\n", path),
        )
    } else {
        (text("Error Loading File"), text("Failed to load taxonomy file."), text(error_string))
    }
}

/// The title, message and details for an error met while saving, to `path`
/// where one is known.
pub fn map_file_save_error(error_string: &str, path: Option<&str>) -> (r: (
    String,
    String,
    String,
))
    ensures
        (r.0@, r.1@, r.2@) == save_notice(
            error_string@,
            match path {
                Some(p) => Some(p@),
                None => None,
            },
        ),
{
    if contains_text(error_string, "No file path set") {
        (
            text("No File Path"),
            text("No file path is set for this taxonomy."),
            text("Please use 'Save As...' to choose a location for this file."),
        )
    } else if contains_text(error_string, "Permission denied") {
        let details = match path {
            Some(p) => joined("You don't have permission to write to:\n", p),
            None => text("You don't have permission to write to this file."),
        };
        (text("Permission Denied"), text("Permission denied."), details)
    } else if contains_text(error_string, "No space left") {
        (
            text("Disk Full"),
            text("Disk full."),
            text("There is no space left on the device to save the file."),
        )
    } else {
        (text("Error Saving File"), text("Failed to save taxonomy file."), text(error_string))
    }
}

/// The title, message and details for an error met while reloading `path`.
pub fn map_revert_error(error_string: &str, path: &str) -> (r: (String, String, String))
    ensures
        (r.0@, r.1@, r.2@) == revert_notice(error_string@, path@),
{
    if contains_text(error_string, "Validation failed") {
        (
            text("Validation Error"),
            text("The taxonomy file has validation errors."),
            text(error_string),
        )
    } else if contains_text(error_string, "No such file") {
        let mut details = joined("Path: ", path);
        details.append("\n\nThe file may have been moved or deleted.");
        (text("File Not Found"), text("The file could not be found."), details)
    } else if contains_text(error_string, "Permission denied") {
        (
            text("Permission Denied"),
            text("Permission denied."),
            joined("You don't have permission to read this file:\n", path),
        )
    } else {
        (text("Error Reverting File"), text("Failed to reload taxonomy file."), text(error_string))
    }
}

} // verus!
