//! Directory resolution inside a package-manager monorepo.
//!
//! The crate decides; it never touches the filesystem itself. Each search is
//! a small state machine that says what it needs to know next (a directory
//! listing, the canonical form of a path, ...) and takes the answer. Paths
//! may be given in any form: before a search goes up from a directory it
//! asks for the canonical form of that directory.

pub mod command;
pub mod expand;
pub mod failure;
pub mod manifest;
pub mod path;
pub mod pattern;
pub mod protocol;
pub mod resolve;
pub mod root;
pub mod text;
