//! Error values of the library's own operations.  Failures of outside
//! collaborators (file handles, image decoding, YAML parsing) are the
//! host's business and stay outside the library.

use vstd::prelude::*;
use crate::settings_loader::LoadError;

verus! {

/// Startup errors of the host around the library: command-line and
/// settings-file handling.
#[derive(Debug, Clone, PartialEq)]
pub enum ApplicationError {
    CommandOptionError(String),
    OnlyShowHelp(String),
    CouldNotConvertPath(String),
    CouldNotParseSettingsFile,
}

/// An error of the library: a skin id that no skin answers to, or a
/// settings record that fails validation.
#[derive(Debug)]
pub enum Error {
    NoSkin { id: u64 },
    LoadError(LoadError),
    ApplicationError(ApplicationError),
}

} // verus!
