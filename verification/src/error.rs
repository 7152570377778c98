//! The error model of a tree copy: a kind, the offending path, and an
//! optional underlying OS error.

use crate::path::joined;
use crate::path::RelPath;
use vstd::prelude::*;

verus! {

/// Which root of the copy a [`TreePath`] hangs under.
#[derive(Clone, Copy, Debug, PartialEq, Eq, Structural)]
pub enum TreeRoot {
    /// The tree being read.
    Source,
    /// The tree being written.
    Destination,
}

/// A path that an error refers to: one of the two roots of the copy,
/// together with the path relative to it. The empty relative path names
/// the root itself.
#[derive(Debug)]
pub struct TreePath {
    /// The root the path hangs under.
    pub root: TreeRoot,
    /// The path relative to that root.
    pub rel: RelPath,
}

impl TreePath {
    /// A path under the source root.
    pub fn source(rel: RelPath) -> (r: TreePath)
        ensures
            r.root == TreeRoot::Source,
            r.rel@ == rel@,
    {
        TreePath { root: TreeRoot::Source, rel }
    }

    /// A path under the destination root.
    pub fn destination(rel: RelPath) -> (r: TreePath)
        ensures
            r.root == TreeRoot::Destination,
            r.rel@ == rel@,
    {
        TreePath { root: TreeRoot::Destination, rel }
    }
}

/// Various kinds of errors that can occur while copying a tree.
#[derive(Clone, Copy, Debug, PartialEq, Eq, Structural)]
#[non_exhaustive]
pub enum ErrorKind {
    /// Error listing a source directory, or querying an entry's type.
    ReadDir,
    /// Error opening or reading a source file.
    ReadFile,
    /// Error creating or writing a destination file.
    WriteFile,
    /// Error in copying a file: might be a read or write error.
    CopyFile,
    /// Error creating a destination directory.
    CreateDir,
    /// Error reading a symlink.
    ReadSymlink,
    /// Error creating a symlink in the destination.
    CreateSymlink,
    /// The source tree contains a type of file that cannot be copied, such
    /// as a Unix FIFO, socket, or device.
    UnsupportedFileType,
    /// Creating the destination was disabled and the destination directory
    /// does not exist.
    DestinationDoesNotExist,
    /// The copy was interrupted. Never produced internally; reserved for a
    /// filter or progress callback that wants to stop the walk.
    Interrupted,
}

impl ErrorKind {
    /// What [`ErrorKind::message`] returns for each kind.
    pub open spec fn message_spec(self) -> Seq<char> {
        match self {
            ErrorKind::ReadDir => "reading source directory"@,
            ErrorKind::ReadFile => "reading source file"@,
            ErrorKind::WriteFile => "writing file"@,
            ErrorKind::CopyFile => "copying file"@,
            ErrorKind::CreateDir => "creating directory"@,
            ErrorKind::ReadSymlink => "reading symlink"@,
            ErrorKind::CreateSymlink => "creating symlink"@,
            ErrorKind::UnsupportedFileType => "unsupported file type"@,
            ErrorKind::DestinationDoesNotExist => "destination directory does not exist"@,
            ErrorKind::Interrupted => "interrupted"@,
        }
    }

    /// A short description of this kind of error.
    pub fn message(&self) -> (r: &'static str)
        ensures
            r@ == self.message_spec(),
    {
        match self {
            ErrorKind::ReadDir => "reading source directory",
            ErrorKind::ReadFile => "reading source file",
            ErrorKind::WriteFile => "writing file",
            ErrorKind::CopyFile => "copying file",
            ErrorKind::CreateDir => "creating directory",
            ErrorKind::ReadSymlink => "reading symlink",
            ErrorKind::CreateSymlink => "creating symlink",
            ErrorKind::UnsupportedFileType => "unsupported file type",
            ErrorKind::DestinationDoesNotExist => "destination directory does not exist",
            ErrorKind::Interrupted => "interrupted",
        }
    }
}

/// Relies on `std::io::Error` only as an opaque value: the library stores
/// the OS error an operation failed with and hands it back unread.
#[verifier::external_type_specification]
#[verifier::external_body]
pub struct ExIoError(std::io::Error);

/// An error from copying a tree.
///
/// Only the first error is ever surfaced per copy: the walk stops at it.
#[derive(Debug)]
pub struct Error {
    /// The kind of error.
    pub kind: ErrorKind,
    /// The path where the error occurred.
    pub path: TreePath,
    /// The underlying OS error, if any.
    pub io: Option<std::io::Error>,
}

impl Error {
    /// Construct a new error with no underlying OS error.
    pub fn new(kind: ErrorKind, path: TreePath) -> (r: Error)
        ensures
            r.kind == kind,
            r.path.root == path.root,
            r.path.rel@ == path.rel@,
            r.io is None,
    {
        Error { kind, path, io: None }
    }

    /// Construct a new error from the OS error an operation failed with.
    pub fn from_io_error(io: std::io::Error, kind: ErrorKind, path: TreePath) -> (r: Error)
        ensures
            r.kind == kind,
            r.path.root == path.root,
            r.path.rel@ == path.rel@,
            r.io == Some(io),
    {
        Error { kind, path, io: Some(io) }
    }

    /// The path where this error occurred.
    pub fn path(&self) -> (r: &TreePath)
        ensures
            r == &self.path,
    {
        &self.path
    }

    /// The underlying OS error, if any.
    pub fn io_error(&self) -> (r: Option<&std::io::Error>)
        ensures
            r is Some <==> self.io is Some,
            r matches Some(e) ==> e == &self.io->0,
    {
        self.io.as_ref()
    }

    /// The kind of error that occurred.
    pub fn kind(&self) -> (r: ErrorKind)
        ensures
            r == self.kind,
    {
        self.kind
    }

    /// What [`Error::message`] returns: the kind's description and the
    /// relative path, separated by `: `.
    pub open spec fn message_spec(self) -> Seq<char> {
        self.kind.message_spec() + ": "@ + joined(self.path.rel@)
    }

    /// A human-readable description of this error. The driver that knows
    /// the operational root paths may render a fuller message instead.
    pub fn message(&self) -> (r: String)
        ensures
            r@ == self.message_spec(),
    {
        let mut s = String::from_str(self.kind.message());
        s.append(": ");
        let rel = self.path.rel.display_string();
        s.append(rel.as_str());
        s
    }
}

} // verus!
