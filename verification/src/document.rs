//! Documents.
//!
//! A [`Document`] is the in-memory identity of a file: an alias used to
//! look it up in a session, the resolved absolute path, and the creation
//! policy it was constructed under.  It is not the file itself —
//! operations on the contents go through a [`FileStore`], the verified
//! filesystem model; an unverified driver offers the same operations
//! against the real disk by driving the same engine.

use vstd::prelude::*;

use crate::create::Create;
use crate::document_error::DocumentError;
use crate::engine::counter_or_zero;
use crate::filename::{dot_ext_of, parse_filepath};
use crate::folder::{role_error, role_resolved, Folder};
use crate::path::{filename_of, filename_str};
use crate::resolve::{setup_err, setup_ok, FileStore};
use crate::text::find_last;

verus! {

/// The mathematical identity of a document.
pub struct DocumentView {
    pub alias: Seq<char>,
    pub path: Seq<char>,
    pub create_policy: Create,
}

/// A file's identity: alias, resolved path, and the creation policy used
/// at construction.  Create one with [`Document::at`] or
/// [`Document::at_path`]; creating a `Document` is what runs the creation
/// policy, so whether a file is created is decided there.
#[derive(Debug, Clone, PartialEq, Hash)]
pub struct Document {
    alias: String,
    path: String,
    create_policy: Create,
}

impl View for Document {
    type V = DocumentView;

    closed spec fn view(&self) -> DocumentView {
        DocumentView { alias: self.alias@, path: self.path@, create_policy: self.create_policy }
    }
}

/// Whether resolving `path` had to be refused because the duplicate
/// counter could run past the largest representable value.
pub open spec fn counter_space_exhausted(fs0: Map<Seq<char>, Seq<u8>>, path: Seq<char>) -> bool {
    counter_or_zero(filename_of(path)) + fs0.dom().len() + 2 > i64::MAX
}

/// Run the resolution after checking that the counter space suffices,
/// refusing with a could-not-create error instead of overflowing.
fn setup_guarded(fs: &mut FileStore, path: &str, policy: Create, dry_run: bool) -> (r: Result<
    String,
    DocumentError,
>)
    requires
        old(fs).inv(),
        old(fs)@.dom().finite(),
    ensures
        final(fs).inv(),
        final(fs)@.dom().finite(),
        (match r {
            Ok(p) => setup_ok(old(fs)@, path@, policy, dry_run, p@, final(fs)@),
            Err(e) => setup_err(old(fs)@, path@, policy, dry_run, e, final(fs)@) || (final(fs)@
                == old(fs)@ && counter_space_exhausted(old(fs)@, path@) && (e
                matches DocumentError::CouldNotCreateFile(q) && q@ == path@)),
        }),
{
    let parts = parse_filepath(path);
    let c0: i64 = match parts.1 {
        Option::Some(c) => c,
        Option::None => 0,
    };
    let count = fs.file_count();
    if c0 as i128 + count as i128 + 2 <= i64::MAX as i128 {
        crate::resolve::setup_in(fs, path, policy, dry_run)
    } else {
        Result::Err(DocumentError::CouldNotCreateFile(path.to_owned()))
    }
}

impl Document {
    /// Construct a document inside a well-known folder role.  The role is
    /// resolved through the operating system, the filename joined under
    /// it, and the creation policy run against the store; the filename
    /// component of the resolved path becomes the alias.
    pub fn at(location: &Folder, filename: &str, create: Create, fs: &mut FileStore) -> (r:
        Result<Document, DocumentError>)
        requires
            old(fs).inv(),
            old(fs)@.dom().finite(),
        ensures
            final(fs).inv(),
            final(fs)@.dom().finite(),
            (match r {
                Ok(doc) => doc@.create_policy == create && exists|rp: Seq<char>|
                    {
                        &&& #[trigger] role_resolved(location, filename@, rp)
                        &&& doc@.alias == filename_of(rp)
                        &&& setup_ok(old(fs)@, rp, create, false, doc@.path, final(fs)@)
                    },
                Err(e) => role_error(location, e) || exists|rp: Seq<char>|
                    {
                        &&& #[trigger] role_resolved(location, filename@, rp)
                        &&& (setup_err(old(fs)@, rp, create, false, e, final(fs)@)
                            || (final(fs)@ == old(fs)@ && counter_space_exhausted(old(fs)@, rp)
                            && (e matches DocumentError::CouldNotCreateFile(q) && q@ == rp)))
                    },
            }),
    {
        let resolved = match location.into_pathbuf_result(filename) {
            Result::Ok(p) => p,
            Result::Err(e) => {
                return Result::Err(e);
            },
        };
        let original_name = filename_str(resolved.as_str());
        match setup_guarded(fs, resolved.as_str(), create, false) {
            Result::Ok(p) => {
                let doc = Document { alias: original_name, path: p, create_policy: create };
                proof {
                    assert(role_resolved(location, filename@, resolved@) && doc@.alias
                        == filename_of(resolved@) && setup_ok(
                        old(fs)@,
                        resolved@,
                        create,
                        false,
                        doc@.path,
                        fs@,
                    ));
                }
                Result::Ok(doc)
            },
            Result::Err(e) => {
                proof {
                    assert(role_resolved(location, filename@, resolved@));
                }
                Result::Err(e)
            },
        }
    }

    /// Construct a document from an explicit path, with an explicit
    /// alias.  No role resolution happens; the creation policy is run
    /// against the store directly.
    pub fn at_path(path: &str, alias: &str, create: Create, fs: &mut FileStore) -> (r: Result<
        Document,
        DocumentError,
    >)
        requires
            old(fs).inv(),
            old(fs)@.dom().finite(),
        ensures
            final(fs).inv(),
            final(fs)@.dom().finite(),
            (match r {
                Ok(doc) => doc@.alias == alias@ && doc@.create_policy == create && setup_ok(
                    old(fs)@,
                    path@,
                    create,
                    false,
                    doc@.path,
                    final(fs)@,
                ),
                Err(e) => setup_err(old(fs)@, path@, create, false, e, final(fs)@)
                    || (final(fs)@ == old(fs)@ && counter_space_exhausted(old(fs)@, path@)
                    && (e matches DocumentError::CouldNotCreateFile(q) && q@ == path@)),
            }),
    {
        match setup_guarded(fs, path, create, false) {
            Result::Ok(p) => Result::Ok(
                Document { alias: alias.to_owned(), path: p, create_policy: create },
            ),
            Result::Err(e) => Result::Err(e),
        }
    }

    /// Rebuild a document from its recorded parts.  This runs no
    /// resolution and creates nothing: it is for drivers that performed
    /// the resolution elsewhere and hold the outcome.
    pub fn from_parts(alias: String, path: String, create_policy: Create) -> (r: Document)
        ensures
            r@.alias == alias@,
            r@.path == path@,
            r@.create_policy == create_policy,
    {
        Document { alias, path, create_policy }
    }

    /// The alias this document is looked up under.
    pub fn alias(&self) -> (r: &String)
        ensures
            r@ == self@.alias,
    {
        &self.alias
    }

    /// The resolved path.
    pub fn path(&self) -> (r: String)
        ensures
            r@ == self@.path,
    {
        self.path.clone()
    }

    /// The creation policy the document was constructed under.
    pub fn create_policy(&self) -> (r: Create)
        ensures
            r == self@.create_policy,
    {
        self.create_policy
    }

    /// The filename component of the resolved path.
    pub fn name(&self) -> (r: String)
        ensures
            r@ == filename_of(self@.path),
    {
        filename_str(self.path.as_str())
    }

    /// The extension of the filename, without its dot; empty when there
    /// is none.
    pub fn extension(&self) -> (r: String)
        ensures
            r@ == (match dot_ext_of(filename_of(self@.path)) {
                Option::Some(e) => e.subrange(1, e.len() as int),
                Option::None => Seq::<char>::empty(),
            }),
    {
        let name = filename_str(self.path.as_str());
        let n = name.as_str().unicode_len();
        match find_last(name.as_str(), '.') {
            Option::Some(d) => {
                if 0 < d && d + 1 < n {
                    name.as_str().substring_char(d + 1, n).to_owned()
                } else {
                    String::new()
                }
            },
            Option::None => String::new(),
        }
    }

    /// Append bytes to the file's contents in the store.  Fails with a
    /// could-not-open error when no file is at the path.
    pub fn append(&self, content: &[u8], fs: &mut FileStore) -> (r: Result<(), DocumentError>)
        requires
            old(fs).inv(),
        ensures
            final(fs).inv(),
            (match r {
                Ok(()) => old(fs)@.dom().contains(self@.path) && final(fs)@ == old(fs)@.insert(
                    self@.path,
                    old(fs)@[self@.path] + content@,
                ),
                Err(e) => !old(fs)@.dom().contains(self@.path) && final(fs)@ == old(fs)@ && (e
                    matches DocumentError::CouldNotOpenFile(p) && p@ == self@.path),
            }),
    {
        let got: Option<&Vec<u8>> = fs.read(self.path.as_str());
        match got {
            Option::Some(v) => {
                let mut buf: Vec<u8> = Vec::new();
                let mut i: usize = 0;
                while i < v.len()
                    invariant
                        i <= v@.len(),
                        buf@ == v@.subrange(0, i as int),
                    decreases v@.len() - i,
                {
                    buf.push(v[i]);
                    i = i + 1;
                    proof {
                        assert(buf@ =~= v@.subrange(0, i as int));
                    }
                }
                proof {
                    assert(buf@ =~= v@);
                }
                let mut j: usize = 0;
                let ghost base = buf@;
                while j < content.len()
                    invariant
                        j <= content@.len(),
                        buf@ == base + content@.subrange(0, j as int),
                    decreases content@.len() - j,
                {
                    buf.push(content[j]);
                    j = j + 1;
                    proof {
                        assert(buf@ =~= base + content@.subrange(0, j as int));
                    }
                }
                proof {
                    assert(buf@ =~= fs@[self@.path] + content@);
                }
                fs.overwrite(self.path.as_str(), buf);
                Result::Ok(())
            },
            Option::None => Result::Err(DocumentError::CouldNotOpenFile(self.path.clone())),
        }
    }

    /// Replace the file's contents in the store.  Fails with a
    /// could-not-open error when no file is at the path.
    pub fn replace_with(&self, content: &[u8], fs: &mut FileStore) -> (r: Result<
        (),
        DocumentError,
    >)
        requires
            old(fs).inv(),
        ensures
            final(fs).inv(),
            (match r {
                Ok(()) => old(fs)@.dom().contains(self@.path) && final(fs)@ == old(fs)@.insert(
                    self@.path,
                    content@,
                ),
                Err(e) => !old(fs)@.dom().contains(self@.path) && final(fs)@ == old(fs)@ && (e
                    matches DocumentError::CouldNotOpenFile(p) && p@ == self@.path),
            }),
    {
        if fs.contains(self.path.as_str()) {
            let mut buf: Vec<u8> = Vec::new();
            let mut j: usize = 0;
            while j < content.len()
                invariant
                    j <= content@.len(),
                    buf@ == content@.subrange(0, j as int),
                decreases content@.len() - j,
            {
                buf.push(content[j]);
                j = j + 1;
                proof {
                    assert(buf@ =~= content@.subrange(0, j as int));
                }
            }
            proof {
                assert(buf@ =~= content@);
            }
            fs.overwrite(self.path.as_str(), buf);
            Result::Ok(())
        } else {
            Result::Err(DocumentError::CouldNotOpenFile(self.path.clone()))
        }
    }

    /// The file's contents in the store, decoded as text.  Fails with a
    /// could-not-open error when no file is at the path or its bytes are
    /// not valid text.
    pub fn content(&self, fs: &FileStore) -> (r: Result<String, DocumentError>)
        requires
            fs.inv(),
        ensures
            (match r {
                Ok(s) => fs@.dom().contains(self@.path) && vstd::utf8::valid_utf8(
                    fs@[self@.path],
                ) && vstd::utf8::encode_utf8(s@) == fs@[self@.path],
                Err(e) => (!fs@.dom().contains(self@.path) || !vstd::utf8::valid_utf8(
                    fs@[self@.path],
                )) && (e matches DocumentError::CouldNotOpenFile(p) && p@ == self@.path),
            }),
    {
        match fs.read(self.path.as_str()) {
            Option::Some(v) => {
                match bytes_to_string(v) {
                    Option::Some(s) => Result::Ok(s),
                    Option::None => Result::Err(
                        DocumentError::CouldNotOpenFile(self.path.clone()),
                    ),
                }
            },
            Option::None => Result::Err(DocumentError::CouldNotOpenFile(self.path.clone())),
        }
    }
}

/// Relies on str::from_utf8: it decodes exactly the valid UTF-8 byte
/// strings, to the text whose encoding is those bytes.
#[verifier::external_body]
fn bytes_to_string(bytes: &Vec<u8>) -> (r: Option<String>)
    ensures
        (match r {
            Some(s) => vstd::utf8::valid_utf8(bytes@) && vstd::utf8::encode_utf8(s@) == bytes@,
            None => !vstd::utf8::valid_utf8(bytes@),
        }),
{
    match core::str::from_utf8(bytes.as_slice()) {
        Ok(s) => Some(s.to_string()),
        Err(_) => None,
    }
}

/// Override the alias of a freshly constructed document.  The sentinel
/// alias `"_"` asks the session not to track the document.  A failed
/// construction is passed through unchanged.
pub fn alias(r: Result<Document, DocumentError>, new_alias: &str) -> (r2: Result<
    Document,
    DocumentError,
>)
    ensures
        (match r {
            Ok(doc) => r2 matches Ok(doc2) && doc2@.alias == new_alias@ && doc2@.path == doc@.path
                && doc2@.create_policy == doc@.create_policy,
            Err(e) => r2 matches Err(e2) && e2 == e,
        }),
{
    match r {
        Result::Ok(doc) => Result::Ok(
            Document { alias: new_alias.to_owned(), path: doc.path, create_policy: doc.create_policy },
        ),
        Result::Err(e) => Result::Err(e),
    }
}

/// The resolved path of a construction result, degrading to an empty
/// string when the construction failed.
pub fn result_path(r: &Result<Document, DocumentError>) -> (s: String)
    ensures
        (match r {
            Ok(d) => s@ == d@.path,
            Err(_) => s@.len() == 0,
        }),
{
    match r {
        Result::Ok(d) => d.path(),
        Result::Err(_) => String::new(),
    }
}

/// The filename of a construction result, degrading to an empty string
/// when the construction failed.
pub fn result_name(r: &Result<Document, DocumentError>) -> (s: String)
    ensures
        (match r {
            Ok(d) => s@ == filename_of(d@.path),
            Err(_) => s@.len() == 0,
        }),
{
    match r {
        Result::Ok(d) => d.name(),
        Result::Err(_) => String::new(),
    }
}

/// Suggest the name a rename-on-collision resolution would choose for a
/// constructed document, without touching the store.  For a construction
/// that failed because the file was not found, the recorded path is
/// handed back unchanged — a missing file cannot collide.  Any other
/// failure yields an empty string.
pub fn suggest_rename(r: &Result<Document, DocumentError>, fs: &mut FileStore) -> (s: String)
    requires
        old(fs).inv(),
        old(fs)@.dom().finite(),
    ensures
        final(fs).inv(),
        final(fs)@ == old(fs)@,
        (match r {
            Ok(doc) => setup_ok(
                old(fs)@,
                doc@.path,
                Create::AutoRenameIfExists,
                true,
                s@,
                old(fs)@,
            ) || (s@.len() == 0 && counter_space_exhausted(old(fs)@, doc@.path)),
            Err(e) => (match e {
                DocumentError::FileNotFound(p) => s@ == p@,
                _ => s@.len() == 0,
            }),
        }),
{
    match r {
        Result::Ok(doc) => {
            match setup_guarded(fs, doc.path.as_str(), Create::AutoRenameIfExists, true) {
                Result::Ok(p) => p,
                Result::Err(_) => String::new(),
            }
        },
        Result::Err(e) => {
            match e {
                DocumentError::FileNotFound(p) => p.clone(),
                _ => String::new(),
            }
        },
    }
}

} // verus!
