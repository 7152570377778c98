//! Tests of the error type: construction, accessors, and messages.

use cp_r::{Error, ErrorKind, RelPath, TreePath, TreeRoot};

fn rel(parts: &[&str]) -> RelPath {
    let mut p = RelPath::root();
    for part in parts {
        p = p.join(part);
    }
    p
}

#[test]
fn error_without_io_source() {
    let err = Error::new(ErrorKind::CreateDir, TreePath::destination(rel(&["a", "aa"])));
    assert_eq!(err.kind(), ErrorKind::CreateDir);
    assert_eq!(err.path().root, TreeRoot::Destination);
    assert_eq!(err.path().rel.display_string(), "a/aa");
    assert!(err.io_error().is_none());
}

#[test]
fn error_with_io_source() {
    let io = std::io::Error::from(std::io::ErrorKind::PermissionDenied);
    let err = Error::from_io_error(io, ErrorKind::ReadDir, TreePath::source(rel(&["a"])));
    assert_eq!(err.kind(), ErrorKind::ReadDir);
    assert_eq!(err.path().root, TreeRoot::Source);
    assert_eq!(err.path().rel.display_string(), "a");
    let io_back = err.io_error().expect("io error kept");
    assert_eq!(io_back.kind(), std::io::ErrorKind::PermissionDenied);
}

#[test]
fn error_message_has_kind_and_path() {
    let err = Error::new(ErrorKind::ReadDir, TreePath::source(rel(&["a", "aa"])));
    assert_eq!(err.message(), "reading source directory: a/aa");
}

#[test]
fn error_message_at_root() {
    let err = Error::new(ErrorKind::DestinationDoesNotExist, TreePath::destination(rel(&[])));
    assert_eq!(err.message(), "destination directory does not exist: ");
}

#[test]
fn kind_messages() {
    assert_eq!(ErrorKind::ReadDir.message(), "reading source directory");
    assert_eq!(ErrorKind::ReadFile.message(), "reading source file");
    assert_eq!(ErrorKind::WriteFile.message(), "writing file");
    assert_eq!(ErrorKind::CopyFile.message(), "copying file");
    assert_eq!(ErrorKind::CreateDir.message(), "creating directory");
    assert_eq!(ErrorKind::ReadSymlink.message(), "reading symlink");
    assert_eq!(ErrorKind::CreateSymlink.message(), "creating symlink");
    assert_eq!(ErrorKind::UnsupportedFileType.message(), "unsupported file type");
    assert_eq!(
        ErrorKind::DestinationDoesNotExist.message(),
        "destination directory does not exist"
    );
    assert_eq!(ErrorKind::Interrupted.message(), "interrupted");
}

#[test]
fn kinds_compare_and_copy() {
    let k = ErrorKind::Interrupted;
    let k2 = k;
    assert_eq!(k, k2);
    assert_ne!(ErrorKind::ReadFile, ErrorKind::WriteFile);
}
