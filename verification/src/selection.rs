//! Which entries of a directory are taken as images.

use vstd::prelude::*;

verus! {

/// Whether a directory entry takes part: it must be a file, and where a
/// filter is given its extension must be there and equal to the filter,
/// letter for letter.
pub fn is_selected(is_file: bool, extension: &Option<String>, filter: &Option<String>) -> (selected:
    bool)
    ensures
        selected == (is_file && (filter is None || (extension is Some && extension->0@
            == filter->0@))),
{
    if !is_file {
        return false;
    }
    match filter {
        None => true,
        Some(wanted) => match extension {
            None => false,
            Some(found) => found.eq(wanted),
        },
    }
}

} // verus!
