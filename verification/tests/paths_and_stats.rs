//! Tests of relative paths and the statistics accumulator.

use cp_r::{CopyStats, RelPath};

#[test]
fn root_is_empty() {
    let root = RelPath::root();
    assert_eq!(root.depth(), 0);
    assert_eq!(root.display_string(), "");
}

#[test]
fn join_appends_components() {
    let p = RelPath::root().join("a").join("bb").join("c");
    assert_eq!(p.depth(), 3);
    assert_eq!(p.part(0), "a");
    assert_eq!(p.part(1), "bb");
    assert_eq!(p.part(2), "c");
    assert_eq!(p.display_string(), "a/bb/c");
}

#[test]
fn join_leaves_original_untouched() {
    let p = RelPath::root().join("a");
    let q = p.join("b");
    assert_eq!(p.depth(), 1);
    assert_eq!(q.depth(), 2);
    assert_eq!(p.display_string(), "a");
    assert_eq!(q.display_string(), "a/b");
}

#[test]
fn duplicate_is_equal_and_independent() {
    let p = RelPath::root().join("x").join("y");
    let d = p.duplicate();
    assert_eq!(d.parts, p.parts);
    let q = d.join("z");
    assert_eq!(p.depth(), 2);
    assert_eq!(q.depth(), 3);
}

#[test]
fn single_component_display_has_no_separator() {
    let p = RelPath::root().join("only");
    assert_eq!(p.display_string(), "only");
}

#[test]
fn stats_start_at_zero() {
    let z = CopyStats { files: 0, dirs: 0, symlinks: 0, file_bytes: 0, filtered_out: 0 };
    assert_eq!(CopyStats::new(), z);
    assert_eq!(CopyStats::default(), z);
}

#[test]
fn stats_compare_by_fields() {
    let a = CopyStats { files: 1, dirs: 2, symlinks: 3, file_bytes: 4, filtered_out: 5 };
    let b = a;
    assert_eq!(a, b);
    let c = CopyStats { files: 2, ..a };
    assert_ne!(a, c);
}
