//! Well-known folder roles.
//!
//! A [`Folder`] names a location symbolically: a user folder such as the
//! pictures or downloads directory, or an application's own config or
//! data folder, each with a list of subdirectories beneath it.  The
//! resolver turns a role into a concrete base path by asking the
//! operating system (through the `directories` crate) and joining the
//! subdirectories and filename under whatever it answers.

use vstd::prelude::*;

use crate::dirs;
use crate::document_error::DocumentError;
use crate::path::{filename_of, filename_str, join_all, join_under, spec_push, spec_push_all};

verus! {

/// A well-known user folder, with subdirectories beneath it.
#[derive(Debug, Clone, PartialEq)]
pub enum User {
    Documents(Vec<String>),
    Pictures(Vec<String>),
    Videos(Vec<String>),
    Downloads(Vec<String>),
    Home(Vec<String>),
}

/// An application's own folder, with subdirectories beneath it.  `Config`
/// is for settings, `Data` for internal data files.
#[derive(Debug, Clone, PartialEq)]
pub enum Project {
    Config(Vec<String>),
    Data(Vec<String>),
}

/// A symbolic location: a user folder, or an application folder together
/// with the application's reverse-DNS identity (qualifier, organization,
/// application).
#[derive(Debug)]
pub enum Folder {
    User(User),
    Project((Project, String, String, String)),
}

impl Project {
    /// Attach the application identity this folder belongs to.  The
    /// identity has the reverse-DNS shape: for `com.example.App`, `com`
    /// is the qualifier, `example` the organization and `App` the
    /// application.
    pub fn with_id(self, qualifier: &str, organization: &str, application: &str) -> (r: (
        Project,
        String,
        String,
        String,
    ))
        ensures
            r.0 == self,
            r.1@ == qualifier@,
            r.2@ == organization@,
            r.3@ == application@,
    {
        (self, qualifier.to_owned(), organization.to_owned(), application.to_owned())
    }
}

/// The subdirectory list of a role.
pub open spec fn subdirs_of(f: &Folder) -> Seq<Seq<char>> {
    match f {
        Folder::User(u) => match u {
            User::Documents(v) => v.deep_view(),
            User::Pictures(v) => v.deep_view(),
            User::Videos(v) => v.deep_view(),
            User::Downloads(v) => v.deep_view(),
            User::Home(v) => v.deep_view(),
        },
        Folder::Project((p, _, _, _)) => match p {
            Project::Config(v) => v.deep_view(),
            Project::Data(v) => v.deep_view(),
        },
    }
}

/// Which errors a role's resolution may report: the role-specific
/// not-found error, or — for user roles — that the user directory table
/// itself is unavailable.
pub open spec fn role_error(f: &Folder, e: DocumentError) -> bool {
    match f {
        Folder::User(u) => e is UserDirsNotFound || match u {
            User::Pictures(_) => e is PicturesDirNotFound,
            User::Videos(_) => e is VideosDirNotFound,
            User::Downloads(_) => e is DownloadsDirNotFound,
            User::Documents(_) => e is DocumentsDirNotFound,
            User::Home(_) => false,
        },
        Folder::Project(_) => e is ProjectDirsNotFound,
    }
}

/// A resolved role path: the filename joined under the subdirectories
/// joined under some base the operating system answered with.
pub open spec fn role_resolved(f: &Folder, filename: Seq<char>, p: Seq<char>) -> bool {
    exists|base: Seq<char>| p == spec_push(spec_push_all(base, subdirs_of(f)), filename)
}

impl Folder {
    /// Resolve this role to a concrete path with `filename` at the end,
    /// or report why the role has no OS-level mapping.
    pub fn into_pathbuf_result(&self, filename: &str) -> (r: Result<String, DocumentError>)
        ensures
            (match r {
                Ok(p) => role_resolved(self, filename@, p@),
                Err(e) => role_error(self, e),
            }),
    {
        match self {
            Folder::User(u) => {
                match dirs::user_dirs_new() {
                    Option::Some(d) => {
                        let base: Result<String, DocumentError> = match u {
                            User::Pictures(_) => match dirs::picture_dir(&d) {
                                Option::Some(b) => Result::Ok(b),
                                Option::None => Result::Err(DocumentError::PicturesDirNotFound),
                            },
                            User::Videos(_) => match dirs::video_dir(&d) {
                                Option::Some(b) => Result::Ok(b),
                                Option::None => Result::Err(DocumentError::VideosDirNotFound),
                            },
                            User::Downloads(_) => match dirs::download_dir(&d) {
                                Option::Some(b) => Result::Ok(b),
                                Option::None => Result::Err(DocumentError::DownloadsDirNotFound),
                            },
                            User::Documents(_) => match dirs::document_dir(&d) {
                                Option::Some(b) => Result::Ok(b),
                                Option::None => Result::Err(DocumentError::DocumentsDirNotFound),
                            },
                            User::Home(_) => Result::Ok(dirs::home_dir(&d)),
                        };
                        match base {
                            Result::Ok(b) => {
                                let subdirs: &Vec<String> = match u {
                                    User::Documents(v) => v,
                                    User::Pictures(v) => v,
                                    User::Videos(v) => v,
                                    User::Downloads(v) => v,
                                    User::Home(v) => v,
                                };
                                let joined = join_all(b.as_str(), subdirs);
                                let p = join_under(&Option::Some(joined), filename);
                                proof {
                                    assert(p@ == spec_push(
                                        spec_push_all(b@, subdirs_of(self)),
                                        filename@,
                                    ));
                                }
                                Result::Ok(p)
                            },
                            Result::Err(e) => Result::Err(e),
                        }
                    },
                    Option::None => Result::Err(DocumentError::UserDirsNotFound),
                }
            },
            Folder::Project((proj, qualifier, organization, application)) => {
                match dirs::project_dirs_from(
                    qualifier.as_str(),
                    organization.as_str(),
                    application.as_str(),
                ) {
                    Option::Some(d) => {
                        let base: String = match proj {
                            Project::Config(_) => dirs::config_dir(&d),
                            Project::Data(_) => dirs::data_dir(&d),
                        };
                        let subdirs: &Vec<String> = match proj {
                            Project::Config(v) => v,
                            Project::Data(v) => v,
                        };
                        let joined = join_all(base.as_str(), subdirs);
                        let p = join_under(&Option::Some(joined), filename);
                        proof {
                            assert(p@ == spec_push(
                                spec_push_all(base@, subdirs_of(self)),
                                filename@,
                            ));
                        }
                        Result::Ok(p)
                    },
                    Option::None => Result::Err(DocumentError::ProjectDirsNotFound),
                }
            },
        }
    }

    /// The resolved path of the bare role, or an empty string when the
    /// role has no mapping.
    pub fn path(&self) -> (r: String)
        ensures
            role_resolved(self, Seq::empty(), r@) || r@.len() == 0,
    {
        proof {
            reveal_strlit("");
            assert(""@ =~= Seq::<char>::empty());
        }
        match self.into_pathbuf_result("") {
            Result::Ok(p) => p,
            Result::Err(_) => String::new(),
        }
    }

    /// The name of the folder the role stands for: the last component of
    /// its resolved path, or an empty string when the role has no
    /// mapping.
    pub fn name(&self) -> (r: String)
        ensures
            (exists|p: Seq<char>| role_resolved(self, Seq::empty(), p) && r@ == filename_of(p))
                || r@.len() == 0,
    {
        proof {
            reveal_strlit("");
            assert(""@ =~= Seq::<char>::empty());
        }
        match self.into_pathbuf_result("") {
            Result::Ok(p) => {
                let n = filename_str(p.as_str());
                proof {
                    assert(role_resolved(self, Seq::<char>::empty(), p@) && n@ == filename_of(
                        p@,
                    ));
                }
                n
            },
            Result::Err(_) => String::new(),
        }
    }
}

} // verus!
