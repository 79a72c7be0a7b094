//! A verified core for recursive, pull-based directory traversal.
//!
//! The crate models a depth-first walk over a directory tree. A driver opens
//! directory listings, reads raw members, classifies their file types and
//! asks a caller-supplied filter for a verdict, while the verified [`Walker`]
//! state machine decides, step by step, what to do next and which entries the
//! traversal yields. A snapshot of a tree can also be walked directly with
//! [`walk_tree`], whose output is pinned down exactly by the specification
//! functions in [`tree`]; the laws of the traversal (completeness, uniqueness
//! and the three-way filtering protocol) are proved in [`laws`].

pub mod driver;
pub mod engine;
pub mod entry;
pub mod filtering;
pub mod laws;
pub mod tree;

pub use driver::drive_tree;
pub use engine::{Action, Event, Outcome, Walker};
pub use entry::{Entry, ErrorKind, FileType};
pub use filtering::Filtering;
pub use tree::{Filter, IgnoreDirs, NoFilter, Node, PruneAt, walk_tree};
