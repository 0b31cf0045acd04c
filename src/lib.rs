//! An in-memory, path-addressed virtual filesystem engine.
//!
//! Entries are kept in a flat store keyed by normalized paths (`/`-separated,
//! no leading slash, the empty path being the root directory). The engine
//! offers the filesystem verbs a kernel adapter needs, enforces byte and entry
//! quotas before every mutation, derives inode numbers from paths, and reports
//! every state change as an event that is published on a broadcast bus.
use vstd::prelude::*;

pub mod common;
pub mod paths;
pub mod identity;
pub mod store;
pub mod ops;
pub mod events;
pub mod laws;

pub use common::{
    Attr, DirEntry, FSEvent, FileKind, FileSystemEvent, FsError, ObjectType, StatFs, VirtualFile,
};
pub use events::{FSState, EVENT_QUEUE_CAPACITY};
pub use identity::{identity, ROOT_ID};
pub use paths::{join_path, split_path};
pub use store::{VirtualFS, BLOCK_SIZE, DEFAULT_MAX_FILES, DEFAULT_TOTAL_SPACE_BYTES};
