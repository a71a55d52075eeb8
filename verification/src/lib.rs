//! An in-memory filesystem engine.
//!
//! The state is an inode table ([`InodeTable`]) and a content store
//! ([`ContentStore`]); the directory index is derived from the link entries
//! that the table keeps per inode. [`MemFs`] composes them into the
//! operations that a kernel-facing front end relays: `lookup`, `create`,
//! `read`, `write`, `link`, `unlink` and the rest.
//!
//! Every operation is specified as a transition on a mathematical view of
//! the state ([`fs_model::FsView`], [`table_model::TableView`]). The
//! invariants are `FsView::wf` and `TableView::wf`; what follows from the
//! transitions is proved in [`laws`].
//!
//! Three counters are bounded by their machine types, and the operations
//! that advance them ask in their preconditions for room: inode numbers
//! (`u64`, never reused), generations (`u64`) and link counts (`u32`).

mod clock;
pub mod content;
pub mod dir_model;
pub mod fs;
pub mod fs_model;
pub mod inode;
pub mod laws;
pub mod table_model;
pub mod types;

pub use content::ContentStore;
pub use fs::MemFs;
pub use inode::{InodeTable, Removed};
pub use types::{
    AttrReply, Attributes, DirEntry, EntryReply, FileKind, FsError, SetAttr, Timestamp,
};
