//! Core engine for copying a directory tree breadth-first.

pub mod engine;
pub mod error;
pub mod path;
pub mod stats;

pub use engine::BootAction;
pub use engine::Engine;
pub use engine::NextAction;
pub use engine::Phase;
pub use error::Error;
pub use error::ErrorKind;
pub use error::TreePath;
pub use error::TreeRoot;
pub use path::RelPath;
pub use stats::CopyStats;
