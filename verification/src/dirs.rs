//! The boundary to the `directories` crate.
//!
//! Which real folder a role maps to depends on the machine and its
//! environment, so nothing is promised of these results beyond their
//! presence or absence; the verified resolver in [`crate::folder`] states
//! what it builds from whatever comes back.

use vstd::prelude::*;

verus! {

#[verifier::external_type_specification]
#[verifier::external_body]
pub struct ExUserDirs(directories::UserDirs);

#[verifier::external_type_specification]
#[verifier::external_body]
pub struct ExProjectDirs(directories::ProjectDirs);

/// Relies on directories::UserDirs::new: the user's directory table, when
/// the OS can name a home directory.
#[verifier::external_body]
pub(crate) fn user_dirs_new() -> Option<directories::UserDirs> {
    directories::UserDirs::new()
}

/// Relies on directories::UserDirs::home_dir: the home directory path.
#[verifier::external_body]
pub(crate) fn home_dir(d: &directories::UserDirs) -> String {
    d.home_dir().display().to_string()
}

/// Relies on directories::UserDirs::picture_dir: the pictures folder, when
/// the OS names one.
#[verifier::external_body]
pub(crate) fn picture_dir(d: &directories::UserDirs) -> Option<String> {
    match d.picture_dir() {
        Some(p) => Some(p.display().to_string()),
        None => None,
    }
}

/// Relies on directories::UserDirs::video_dir: the videos folder, when the
/// OS names one.
#[verifier::external_body]
pub(crate) fn video_dir(d: &directories::UserDirs) -> Option<String> {
    match d.video_dir() {
        Some(p) => Some(p.display().to_string()),
        None => None,
    }
}

/// Relies on directories::UserDirs::download_dir: the downloads folder,
/// when the OS names one.
#[verifier::external_body]
pub(crate) fn download_dir(d: &directories::UserDirs) -> Option<String> {
    match d.download_dir() {
        Some(p) => Some(p.display().to_string()),
        None => None,
    }
}

/// Relies on directories::UserDirs::document_dir: the documents folder,
/// when the OS names one.
#[verifier::external_body]
pub(crate) fn document_dir(d: &directories::UserDirs) -> Option<String> {
    match d.document_dir() {
        Some(p) => Some(p.display().to_string()),
        None => None,
    }
}

/// Relies on directories::ProjectDirs::from: the per-application directory
/// table for a reverse-DNS identity, when the OS supports one.
#[verifier::external_body]
pub(crate) fn project_dirs_from(
    qualifier: &str,
    organization: &str,
    application: &str,
) -> Option<directories::ProjectDirs> {
    directories::ProjectDirs::from(qualifier, organization, application)
}

/// Relies on directories::ProjectDirs::config_dir: the application's
/// configuration folder.
#[verifier::external_body]
pub(crate) fn config_dir(d: &directories::ProjectDirs) -> String {
    d.config_dir().display().to_string()
}

/// Relies on directories::ProjectDirs::data_dir: the application's data
/// folder.
#[verifier::external_body]
pub(crate) fn data_dir(d: &directories::ProjectDirs) -> String {
    d.data_dir().display().to_string()
}

} // verus!
