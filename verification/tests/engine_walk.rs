//! Scenario tests driving the copy engine through whole walks.

use cp_r::{BootAction, CopyStats, Engine, ErrorKind, NextAction, Phase, TreeRoot};

#[test]
fn single_file_copy() {
    // Source root holds one regular file; destination already exists.
    let mut e = Engine::new(true);
    let boot = e.begin(true).unwrap();
    assert_eq!(boot, BootAction::Proceed);

    assert_eq!(e.next(), NextAction::ListDir);
    assert_eq!(e.current_dir().depth(), 0);
    e.copied_file("a file", 12);
    e.close_dir();

    assert_eq!(e.next(), NextAction::Finished);
    let stats = e.finish();
    assert_eq!(
        stats,
        CopyStats { files: 1, dirs: 0, symlinks: 0, file_bytes: 12, filtered_out: 0 }
    );
}

#[test]
fn subdirs_walked_breadth_first() {
    // Source tree: a/aa/file.txt ("hi", 2 bytes) and b/bb (empty directory).
    // Every entry of a directory is reported before any subdirectory is
    // listed, and subdirectories are listed in discovery order.
    let mut e = Engine::new(true);
    e.begin(true).unwrap();

    let mut listed: Vec<String> = Vec::new();

    assert_eq!(e.next(), NextAction::ListDir);
    listed.push(e.current_dir().display_string());
    e.copied_dir("a");
    e.copied_dir("b");
    e.close_dir();

    assert_eq!(e.next(), NextAction::ListDir);
    listed.push(e.current_dir().display_string());
    e.copied_dir("aa");
    e.close_dir();

    assert_eq!(e.next(), NextAction::ListDir);
    listed.push(e.current_dir().display_string());
    e.copied_dir("bb");
    e.close_dir();

    assert_eq!(e.next(), NextAction::ListDir);
    listed.push(e.current_dir().display_string());
    e.copied_file("file.txt", 2);
    e.close_dir();

    assert_eq!(e.next(), NextAction::ListDir);
    listed.push(e.current_dir().display_string());
    e.close_dir();

    assert_eq!(e.next(), NextAction::Finished);
    assert_eq!(listed, vec!["", "a", "b", "a/aa", "b/bb"]);

    let stats = e.finish();
    assert_eq!(
        stats,
        CopyStats { files: 1, dirs: 4, symlinks: 0, file_bytes: 2, filtered_out: 0 }
    );
}

#[test]
fn create_destination_by_default() {
    // The destination is missing and creating it is enabled (the default):
    // the engine asks for it to be created and counts it as a directory.
    let mut e = Engine::new(true);
    let boot = e.begin(false).unwrap();
    assert_eq!(boot, BootAction::CreateDest);
    e.created_dest();

    assert_eq!(e.next(), NextAction::ListDir);
    e.close_dir();
    assert_eq!(e.next(), NextAction::Finished);
    let stats = e.finish();
    assert_eq!(
        stats,
        CopyStats { files: 0, dirs: 1, symlinks: 0, file_bytes: 0, filtered_out: 0 }
    );
}

#[test]
fn destination_must_exist_when_requested() {
    // Creating the destination is disabled and it does not exist.
    let mut e = Engine::new(false);
    let err = e.begin(false).unwrap_err();
    assert_eq!(err.kind(), ErrorKind::DestinationDoesNotExist);
    assert_eq!(err.path().root, TreeRoot::Destination);
    assert_eq!(err.path().rel.depth(), 0);
    assert!(err.io_error().is_none());
    assert_eq!(e.current_stage(), Phase::Failed);
}

#[test]
fn filtered_directory_is_never_listed() {
    // The filter declines directory "b": it is skipped, counted once in
    // filtered_out, and never comes up for listing.
    let mut e = Engine::new(true);
    e.begin(true).unwrap();

    assert_eq!(e.next(), NextAction::ListDir);
    e.copied_dir("a");
    e.skip_entry("b");
    e.close_dir();

    assert_eq!(e.next(), NextAction::ListDir);
    assert_eq!(e.current_dir().display_string(), "a");
    e.close_dir();

    assert_eq!(e.next(), NextAction::Finished);
    let stats = e.finish();
    assert_eq!(
        stats,
        CopyStats { files: 0, dirs: 1, symlinks: 0, file_bytes: 0, filtered_out: 1 }
    );
}

#[test]
fn filtered_file_is_counted_once() {
    let mut e = Engine::new(true);
    e.begin(true).unwrap();
    assert_eq!(e.next(), NextAction::ListDir);
    e.skip_entry("transient.tmp");
    e.copied_file("permanent.txt", 6);
    e.close_dir();
    assert_eq!(e.next(), NextAction::Finished);
    let stats = e.finish();
    assert_eq!(stats.filtered_out, 1);
    assert_eq!(stats.files, 1);
}

#[test]
fn unsupported_entry_stops_walk() {
    // A device node (or FIFO, socket, ...) stops the copy at once.
    let mut e = Engine::new(true);
    e.begin(true).unwrap();
    assert_eq!(e.next(), NextAction::ListDir);
    e.copied_dir("dev");
    e.close_dir();
    assert_eq!(e.next(), NextAction::ListDir);
    let err = e.unsupported("null");
    assert_eq!(err.kind(), ErrorKind::UnsupportedFileType);
    assert_eq!(err.path().root, TreeRoot::Source);
    assert_eq!(err.path().rel.display_string(), "dev/null");
    assert_eq!(err.message(), "unsupported file type: dev/null");
    assert!(err.io_error().is_none());
    assert_eq!(e.current_stage(), Phase::Failed);
}

#[test]
fn existing_destination_with_creation_disabled() {
    // Creating the destination is disabled but it already exists: fine.
    let mut e = Engine::new(false);
    let boot = e.begin(true).unwrap();
    assert_eq!(boot, BootAction::Proceed);
    assert_eq!(e.next(), NextAction::ListDir);
    e.close_dir();
    assert_eq!(e.next(), NextAction::Finished);
    assert_eq!(e.finish().dirs, 0);
}

#[test]
fn file_bytes_accumulate_to_the_limit() {
    // The byte counter can hold one file as large as its type allows.
    let mut e = Engine::new(true);
    e.begin(true).unwrap();
    assert_eq!(e.next(), NextAction::ListDir);
    e.copied_file("big", u64::MAX);
    e.close_dir();
    assert_eq!(e.next(), NextAction::Finished);
    let stats = e.finish();
    assert_eq!(stats.file_bytes, u64::MAX);
    assert_eq!(stats.files, 1);
}

#[test]
fn callback_error_short_circuits() {
    // The progress callback fails right after the first file was copied:
    // the driver reports the failure and the walk is frozen with exactly
    // that one file on record.
    let mut e = Engine::new(true);
    e.begin(true).unwrap();
    assert_eq!(e.next(), NextAction::ListDir);
    e.copied_file("first", 3);
    // The callback returned an error here; the remaining entries of the
    // directory are never reported.
    e.fail();
    assert_eq!(e.current_stage(), Phase::Failed);
    assert_eq!(e.current_stats().files, 1);
    assert_eq!(e.current_stats().file_bytes, 3);
}

#[test]
fn dangling_symlink_counts_as_copied() {
    // The engine never asks whether a link's target exists: a dangling
    // symlink is recorded like any other.
    let mut e = Engine::new(true);
    e.begin(true).unwrap();
    assert_eq!(e.next(), NextAction::ListDir);
    e.copied_symlink("a_link");
    e.close_dir();
    assert_eq!(e.next(), NextAction::Finished);
    let stats = e.finish();
    assert_eq!(
        stats,
        CopyStats { files: 0, dirs: 0, symlinks: 1, file_bytes: 0, filtered_out: 0 }
    );
}

#[test]
fn stats_snapshot_grows_per_entry() {
    // What a progress callback would see after each successful entry.
    let mut e = Engine::new(true);
    e.begin(true).unwrap();
    assert_eq!(e.next(), NextAction::ListDir);
    e.copied_file("one", 5);
    assert_eq!(e.current_stats().files, 1);
    assert_eq!(e.current_stats().file_bytes, 5);
    e.copied_file("two", 7);
    assert_eq!(e.current_stats().files, 2);
    assert_eq!(e.current_stats().file_bytes, 12);
    e.close_dir();
    assert_eq!(e.next(), NextAction::Finished);
    assert_eq!(e.finish().file_bytes, 12);
}
