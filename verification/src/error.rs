//! Errors.
use crate::path::FilePath;
use vstd::prelude::*;

verus! {

/// `std::io::Error`, carried from where it arose to the caller.
#[verifier::external_type_specification]
#[verifier::external_body]
pub struct ExIoError(std::io::Error);

/// `notify::Config`, carried in the error that rejects it.
#[verifier::external_type_specification]
#[verifier::external_body]
pub struct ExConfig(notify::Config);

/// What went wrong in the watcher backend.
#[derive(Debug)]
pub enum NotifyErrorKind {
    /// A message of the backend.
    Generic(String),
    /// An I/O error.
    Io(std::io::Error),
    /// A path does not exist.
    PathNotFound,
    /// A watch that was to be removed does not exist.
    WatchNotFound,
    /// A configuration was rejected.
    InvalidConfig(notify::Config),
    /// No more files can be watched.
    MaxFilesWatch,
}

/// An error of the watcher backend, with the paths that it is about.
#[derive(Debug)]
pub struct NotifyError {
    pub kind: NotifyErrorKind,
    pub paths: Vec<FilePath>,
}

/// The kind of an error that arises in this library.
#[derive(Clone, Copy, Debug, PartialEq, Eq, Structural)]
pub enum IoErrorKind {
    NotFound,
    InvalidInput,
    Other,
}

/// An error that the library hands to its caller.
#[derive(Debug)]
pub enum IoError {
    /// An I/O error, handed on as it came.
    System(std::io::Error),
    /// A file was to be added whose path has no file name.
    FilenameNotFound,
    /// A directory was to be added as a file.
    IsADirectory,
    /// A file was to be added that does not exist and has no parent directory.
    NeedsParentDirectory,
    /// An error of the watcher backend that is no I/O error.
    Notify(NotifyError),
}

impl IoError {
    /// The kind of the error; one of the system has its own.
    pub open spec fn spec_kind(self) -> Option<IoErrorKind> {
        match self {
            IoError::System(_) => None,
            IoError::FilenameNotFound => Some(IoErrorKind::NotFound),
            IoError::IsADirectory => Some(IoErrorKind::InvalidInput),
            IoError::NeedsParentDirectory => Some(IoErrorKind::InvalidInput),
            IoError::Notify(_) => Some(IoErrorKind::Other),
        }
    }

    /// The kind of the error; one of the system has its own.
    pub fn kind(&self) -> (kind: Option<IoErrorKind>)
        ensures
            kind == self.spec_kind(),
    {
        match self {
            IoError::System(_) => None,
            IoError::FilenameNotFound => Some(IoErrorKind::NotFound),
            IoError::IsADirectory => Some(IoErrorKind::InvalidInput),
            IoError::NeedsParentDirectory => Some(IoErrorKind::InvalidInput),
            IoError::Notify(_) => Some(IoErrorKind::Other),
        }
    }

    /// The message of the error; one of the system or of the watcher backend has
    /// its own.
    pub fn message(&self) -> (message: Option<&'static str>)
        ensures
            match self {
                IoError::FilenameNotFound => message matches Some(text) && text@
                    == "Filename not found in path"@,
                IoError::IsADirectory => message matches Some(text) && text@ == "Is a directory"@,
                IoError::NeedsParentDirectory => message matches Some(text) && text@
                    == "File needs a parent directory"@,
                IoError::System(_) => message is None,
                IoError::Notify(_) => message is None,
            },
    {
        match self {
            IoError::FilenameNotFound => Some("Filename not found in path"),
            IoError::IsADirectory => Some("Is a directory"),
            IoError::NeedsParentDirectory => Some("File needs a parent directory"),
            IoError::System(_) => None,
            IoError::Notify(_) => None,
        }
    }
}

/// An error of the watcher backend as an I/O error.
pub open spec fn io_error_of(error: NotifyError) -> IoError {
    match error.kind {
        NotifyErrorKind::Io(error) => IoError::System(error),
        _ => IoError::Notify(error),
    }
}

/// Turns an error of the watcher backend into an I/O error: the one inside it,
/// if there is one.
pub fn notify_to_io_error(error: NotifyError) -> (io_error: IoError)
    ensures
        io_error == io_error_of(error),
{
    match error.kind {
        NotifyErrorKind::Io(io_error) => IoError::System(io_error),
        // Runtime event errors should only be I/O errors, but the others have to
        // be handled anyway.
        _ => IoError::Notify(error),
    }
}

} // verus!
