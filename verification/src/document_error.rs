//! The error taxonomy.

use vstd::prelude::*;

verus! {

/// The failures this library reports.  Every fallible step returns one of
/// these to its immediate caller; callers can match on the kind.  None is
/// retried automatically.
#[derive(Debug, Clone, PartialEq, Hash)]
pub enum DocumentError {
    /// User directories not found.
    UserDirsNotFound,
    /// Pictures directory not found.
    PicturesDirNotFound,
    /// Videos directory not found.
    VideosDirNotFound,
    /// Downloads directory not found.
    DownloadsDirNotFound,
    /// Documents directory not found.
    DocumentsDirNotFound,
    /// Project directories not found.
    ProjectDirsNotFound,
    /// The file is missing after the creation policy ran (carries the path).
    FileNotFound(String),
    /// No free candidate name could be created (carries the path).
    CouldNotCreateFile(String),
    /// A parent folder could not be made (carries the folder path).
    CouldNotCreateParentFolder(String),
    /// The platform launcher refused the file (carries the path).
    CouldNotLaunchFile(String),
    /// The file could not be opened (carries the path).
    CouldNotOpenFile(String),
    /// The file is not writable (carries the path).
    FileNotWritable(String),
    /// The file is not open (carries the path).
    FileNotOpen(String),
}

/// The message text of an error.
pub open spec fn spec_message(e: DocumentError) -> Seq<char> {
    match e {
        DocumentError::UserDirsNotFound => "User directories not found"@,
        DocumentError::PicturesDirNotFound => "Pictures directory not found"@,
        DocumentError::VideosDirNotFound => "Videos directory not found"@,
        DocumentError::DownloadsDirNotFound => "Downloads directory not found"@,
        DocumentError::DocumentsDirNotFound => "Documents directory not found"@,
        DocumentError::ProjectDirsNotFound => "Project directories not found"@,
        DocumentError::FileNotFound(p) => "File not found: "@ + p@,
        DocumentError::CouldNotCreateFile(p) => "Could not create file: "@ + p@,
        DocumentError::CouldNotCreateParentFolder(p) => "Could not create parent folder: "@ + p@,
        DocumentError::CouldNotLaunchFile(p) => "Could not launch file with default app: "@ + p@,
        DocumentError::CouldNotOpenFile(p) => "Could not open file: "@ + p@,
        DocumentError::FileNotWritable(p) => "File not writable: "@ + p@,
        DocumentError::FileNotOpen(p) => "File not open: "@ + p@,
    }
}

impl DocumentError {
    /// A human-readable description of this error.
    pub fn message(&self) -> (r: String)
        ensures
            r@ == spec_message(*self),
    {
        match self {
            DocumentError::UserDirsNotFound => String::from_str("User directories not found"),
            DocumentError::PicturesDirNotFound => String::from_str(
                "Pictures directory not found",
            ),
            DocumentError::VideosDirNotFound => String::from_str("Videos directory not found"),
            DocumentError::DownloadsDirNotFound => String::from_str(
                "Downloads directory not found",
            ),
            DocumentError::DocumentsDirNotFound => String::from_str(
                "Documents directory not found",
            ),
            DocumentError::ProjectDirsNotFound => String::from_str(
                "Project directories not found",
            ),
            DocumentError::FileNotFound(p) => {
                let mut s = String::from_str("File not found: ");
                s.append(p.as_str());
                s
            },
            DocumentError::CouldNotCreateFile(p) => {
                let mut s = String::from_str("Could not create file: ");
                s.append(p.as_str());
                s
            },
            DocumentError::CouldNotCreateParentFolder(p) => {
                let mut s = String::from_str("Could not create parent folder: ");
                s.append(p.as_str());
                s
            },
            DocumentError::CouldNotLaunchFile(p) => {
                let mut s = String::from_str("Could not launch file with default app: ");
                s.append(p.as_str());
                s
            },
            DocumentError::CouldNotOpenFile(p) => {
                let mut s = String::from_str("Could not open file: ");
                s.append(p.as_str());
                s
            },
            DocumentError::FileNotWritable(p) => {
                let mut s = String::from_str("File not writable: ");
                s.append(p.as_str());
                s
            },
            DocumentError::FileNotOpen(p) => {
                let mut s = String::from_str("File not open: ");
                s.append(p.as_str());
                s
            },
        }
    }
}

} // verus!
