//! An IRC network session exposed as a synthetic, path-addressed filesystem.
//!
//! The crate verifies the pieces that carry the system's logic: the
//! owner/group/other permission bitfield, the absolute-path resolver, the
//! in-memory tree of directories and append-only files, the kernel-facing
//! operation layer, the bridge that turns inbound protocol events into tree
//! mutations, and the parser for slash-prefixed directives written to the
//! session input file.

pub mod bridge;
pub mod bytes;
pub mod config;
pub mod clock;
pub mod errors;
pub mod ircfs;
pub mod names;
pub mod parser;
pub mod path;
pub mod permissions;
pub mod tree;

pub use bridge::{FsControl, IrcAction, IrcEvent};
pub use errors::FsError;
pub use ircfs::IrcFs;
pub use permissions::{Mode, Perms, RequestInfo, SpecialPerms};
pub use tree::{FileAttr, FileKind, Filesystem, Node};
