//! A path-resolution and collision-safe file-creation layer.
//!
//! Given a well-known folder role plus a desired filename, the library
//! resolves an absolute path, decides under a creation policy whether and
//! how the backing file is created, and resolves naming collisions by
//! parsing a filename into stem, duplicate counter and extension and
//! incrementing the counter until a free name is found.  Several resolved
//! files can be batched behind a keyed lookup for one unit of work.
//!
//! All decisions are made by verified code.  The operating system is
//! consulted only through two narrow boundaries: the `directories` crate
//! answers what a folder role maps to, and an unverified driver performs
//! the filesystem probes and creations that an [`engine::Engine`] asks
//! for.  An in-memory [`resolve::FileStore`] drives the same engine from
//! verified code.

pub mod create;
pub mod decimal;
pub mod dirs;
pub mod document;
pub mod document_error;
pub mod document_map;
pub mod engine;
pub mod filename;
pub mod folder;
pub mod into_result;
pub mod mode;
pub mod path;
pub mod prelude;
pub mod resolve;
pub mod text;

