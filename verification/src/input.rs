//! Checks on what the user typed for an item: its name and its path.

use crate::text::{
    all_trimmed, blank, is_blank, keep_non_empty, non_empty, split, split_pieces, texts, trim,
    trim_all, trimmed,
};
use vstd::prelude::*;
use vstd::string::StringExecFns;

verus! {

/// What is wrong with an input field.
#[derive(Debug, PartialEq, Eq)]
pub struct ValidationError {
    pub field: String,
    pub message: String,
}

impl ValidationError {
    /// The error as one line: the field, a colon, the message.
    pub fn to_string(&self) -> (r: String)
        ensures
            r@ == self.field@ + ": "@ + self.message@,
    {
        let mut r = self.field.clone();
        r.append(": ");
        r.append(self.message.as_str());
        r
    }
}

/// The names of a path typed with commas between them: each piece trimmed,
/// empty pieces left out.
pub open spec fn path_names(s: Seq<char>) -> Seq<Seq<char>> {
    non_empty(all_trimmed(split(s, ',')))
}

/// Reads a classification path from a comma-separated text. A text without
/// any name is an error on the field `path`.
pub fn parse_classification_path(path_str: &str) -> (r: Result<Vec<String>, ValidationError>)
    ensures
        match r {
            Ok(path) => texts(path@) == path_names(path_str@) && path@.len() > 0,
            Err(e) => path_names(path_str@).len() == 0 && e.field@ == "path"@ && e.message@
                == "Classification path cannot be empty"@,
        },
{
    let pieces = split_pieces(path_str, Some(','));
    let trimmed_pieces = trim_all(&pieces);
    let path = keep_non_empty(trimmed_pieces);
    assert(texts(path@).len() == path@.len());
    if path.len() == 0 {
        return Err(
            ValidationError {
                field: String::from_str("path"),
                message: String::from_str("Classification path cannot be empty"),
            },
        );
    }
    Ok(path)
}

/// Checks the name and the path typed for an item, and returns the name
/// trimmed with the names of the path. A blank name is an error on the field
/// `name`; it is looked at first.
pub fn validate_item_input(name: &str, path_str: &str) -> (r: Result<
    (String, Vec<String>),
    ValidationError,
>)
    ensures
        match r {
            Ok((n, path)) => !is_blank(name@) && path_names(path_str@).len() > 0 && n@ == trimmed(
                name@,
            ) && texts(path@) == path_names(path_str@),
            Err(e) => if is_blank(name@) {
                e.field@ == "name"@ && e.message@ == "Name cannot be empty"@
            } else {
                path_names(path_str@).len() == 0 && e.field@ == "path"@ && e.message@
                    == "Classification path cannot be empty"@
            },
        },
{
    if blank(name) {
        return Err(
            ValidationError {
                field: String::from_str("name"),
                message: String::from_str("Name cannot be empty"),
            },
        );
    }
    match parse_classification_path(path_str) {
        Ok(path) => Ok((trim(name), path)),
        Err(e) => Err(e),
    }
}

} // verus!
