//! The creation policy.

use vstd::prelude::*;

verus! {

/// Whether to create a new file for the document being constructed.
///
/// *No*: never create a file; constructing the document fails when the
/// file does not exist.
///
/// *OnlyIfNotExists*: create the file when it is missing, leave it
/// untouched when it exists; fail when a parent folder cannot be made.
///
/// *AutoRenameIfExists*: always create a fresh file; when the name is
/// taken, append `(1)`, `(2)`, ... before the extension until a free name
/// is found.
#[derive(Debug, Clone, Copy, PartialEq, Eq, Structural, Hash, Default)]
pub enum Create {
    #[default]
    No,
    OnlyIfNotExists,
    AutoRenameIfExists,
}

} // verus!
