//! Paths: `std::path`.
use crate::util::path::{may_be_absolute, may_be_name};
use crate::util::text::opt_text;
use std::path::Path;
use vstd::prelude::*;

verus! {

/// `std::path::Path::file_name`: the last part of a path, unless it goes up. What separates the parts
/// is a matter of the machine: a slash, or a backslash too. Of a path with a drive or another prefix
/// nothing is said for a machine where a backslash separates.
#[verifier::external_body]
pub(crate) fn path_file_name(path: &str) -> (name: Option<String>)
    ensures
        may_be_name(path@, opt_text(name)),
{
    match Path::new(path).file_name() {
        Some(name) => Some(name.to_string_lossy().into_owned()),
        None => None,
    }
}

/// `std::path::Path::is_absolute`: whether a path starts at the root. What a root looks like is a
/// matter of the machine: a slash, or a prefix and a separator.
#[verifier::external_body]
pub(crate) fn path_is_absolute(path: &str) -> (yes: bool)
    ensures
        may_be_absolute(path@, yes),
{
    Path::new(path).is_absolute()
}

} // verus!
