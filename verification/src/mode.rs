//! Opening modes.

use vstd::prelude::*;

verus! {

/// The mode a file is opened with, as a capability triple.
///
/// *Read*: read only.  *Replace*: wipe the file and write new contents.
/// *Append*: add to the end.  *ReadReplace* and *ReadAppend* combine
/// reading with the respective write capability.
#[derive(Debug, Clone, Copy, PartialEq, Eq, Structural, Default)]
pub enum Mode {
    #[default]
    Read,
    Replace,
    Append,
    ReadReplace,
    ReadAppend,
}

impl Mode {
    /// Whether this mode permits reading.
    pub fn readable(&self) -> (r: bool)
        ensures
            r == (self is Read || self is ReadReplace || self is ReadAppend),
    {
        match self {
            Self::Read | Self::ReadReplace | Self::ReadAppend => true,
            _ => false,
        }
    }

    /// Whether this mode permits writing.
    pub fn writable(&self) -> (r: bool)
        ensures
            r == (self is Replace || self is Append || self is ReadReplace || self is ReadAppend),
    {
        match self {
            Self::Replace | Self::Append | Self::ReadAppend | Self::ReadReplace => true,
            _ => false,
        }
    }

    /// Whether this mode appends rather than truncates when writing.
    pub fn appendable(&self) -> (r: bool)
        ensures
            r == (self is Append || self is ReadAppend),
    {
        match self {
            Self::Append | Self::ReadAppend => true,
            _ => false,
        }
    }

    /// Whether opening in this mode wipes the file first: exactly the
    /// replacing modes truncate on open.
    pub fn truncates(&self) -> (r: bool)
        ensures
            r == (self is Replace || self is ReadReplace),
    {
        match self {
            Self::Replace | Self::ReadReplace => true,
            _ => false,
        }
    }
}

} // verus!
