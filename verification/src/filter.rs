//! Selecting candidate files: hidden entries are excluded, and a file is
//! processed only if its extension is accepted.

use vstd::prelude::*;
use crate::config::Config;
use crate::paths::{extension_spec, extension_part, has_hidden_component, is_hidden};
use crate::text::lower_seq;

verus! {

/// Whether `path`'s extension, lower-cased, is in the accepted set.  A path
/// without an extension matches nothing.
pub open spec fn matches_extension(path: Seq<char>, accepted: Set<Seq<char>>) -> bool {
    match extension_spec(path) {
        Some(e) => accepted.contains(lower_seq(e)),
        None => false,
    }
}

/// A path is selected for processing when no component of it is hidden and
/// its extension is accepted.  The path is taken relative to the scanned
/// source root, so its components are exactly the entry's own name and the
/// directory names between the root and the entry.
pub open spec fn selected_spec(path: Seq<char>, accepted: Set<Seq<char>>) -> bool {
    !has_hidden_component(path) && matches_extension(path, accepted)
}

/// Whether `path`'s extension, lower-cased, belongs to the accepted set, as
/// `matches_extension` gives it.
pub fn has_extension(path: &str, extensions: &Config) -> (r: bool)
    ensures
        r == matches_extension(path@, extensions.accepted()),
{
    match extension_part(path) {
        Some(e) => extensions.accepts(e),
        None => false,
    }
}

/// Whether a regular file at `path` (relative to the source root) is to be
/// processed: not hidden, and of an accepted extension.
pub fn should_process_file(path: &str, extensions: &Config) -> (r: bool)
    ensures
        r == selected_spec(path@, extensions.accepted()),
{
    !is_hidden(path) && has_extension(path, extensions)
}

} // verus!
