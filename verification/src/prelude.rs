//! One import for the items most callers need.

pub use crate::create::Create;
pub use crate::document::{alias, suggest_rename, Document};
pub use crate::document_error::DocumentError;
pub use crate::document_map::DocumentMap;
pub use crate::folder::{Folder, Project, User};
pub use crate::into_result::IntoResult;
pub use crate::mode::Mode;
pub use crate::resolve::FileStore;
