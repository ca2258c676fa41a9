//! What a search asks of the filesystem, and what it is told.
//!
//! A search never reads the filesystem itself. It hands out a `Request`,
//! the caller carries it out and hands back a `Reply`.

use vstd::prelude::*;
use crate::failure::{Failure, IoKind};

verus! {

/// A question to the filesystem.
#[derive(Debug, PartialEq, Eq)]
pub enum Request {
    /// The names of the entries of this directory.
    ListDir { dir: Vec<u8> },
    /// The absolute form of this path, with no symbolic link and no `.` or
    /// `..` left in it.
    Canonicalize { path: Vec<u8> },
    /// Whether anything exists at this path.
    Exists { path: Vec<u8> },
    /// The contents of this file.
    ReadFile { path: Vec<u8> },
    /// The paths that this glob pattern matches.
    Glob { pattern: String },
    /// The package directories of the repository at this root.
    Packages { root: Vec<u8> },
}

/// The answer to a `Request`.
#[derive(Debug, PartialEq, Eq)]
pub enum Reply {
    /// To `ListDir`: the names of the entries.
    Entries { names: Vec<Vec<u8>> },
    /// To `Canonicalize`: the canonical path.
    Canonical { path: Vec<u8> },
    /// To `Exists`.
    Exists { present: bool },
    /// To `ReadFile`: the bytes of the file.
    Contents { bytes: Vec<u8> },
    /// To `Glob`: the paths matched, in the order glob gave them.
    Matches { paths: Vec<Vec<u8>> },
    /// To `Glob`: the pattern was refused.
    PatternRejected,
    /// To `Packages`: the package directories, or why there are none.
    Packages { found: Result<Vec<Vec<u8>>, Failure> },
    /// To any request: the filesystem failed, in this way.
    Failed { kind: IoKind },
}

/// A `Request` as a mathematical value.
pub enum RequestView {
    ListDir { dir: Seq<u8> },
    Canonicalize { path: Seq<u8> },
    Exists { path: Seq<u8> },
    ReadFile { path: Seq<u8> },
    Glob { pattern: Seq<char> },
    Packages { root: Seq<u8> },
}

/// A `Reply` as a mathematical value.
pub enum ReplyView {
    Entries { names: Seq<Seq<u8>> },
    Canonical { path: Seq<u8> },
    Exists { present: bool },
    Contents { bytes: Seq<u8> },
    Matches { paths: Seq<Seq<u8>> },
    PatternRejected,
    Packages { found: Result<Seq<Seq<u8>>, Failure> },
    Failed { kind: IoKind },
}

/// A filesystem, seen as the answers it gives.
pub type World = spec_fn(RequestView) -> ReplyView;

/// The byte strings that a vector of paths holds.
pub open spec fn paths_view(paths: Seq<Vec<u8>>) -> Seq<Seq<u8>> {
    paths.map_values(|path: Vec<u8>| path@)
}

/// What an expansion came to, as a mathematical value.
pub open spec fn found_view(found: Result<Vec<Vec<u8>>, Failure>) -> Result<Seq<Seq<u8>>, Failure> {
    match found {
        Ok(paths) => Ok(paths_view(paths@)),
        Err(failure) => Err(failure),
    }
}

impl View for Request {
    type V = RequestView;

    open spec fn view(&self) -> RequestView {
        match self {
            Request::ListDir { dir } => RequestView::ListDir { dir: dir@ },
            Request::Canonicalize { path } => RequestView::Canonicalize { path: path@ },
            Request::Exists { path } => RequestView::Exists { path: path@ },
            Request::ReadFile { path } => RequestView::ReadFile { path: path@ },
            Request::Glob { pattern } => RequestView::Glob { pattern: pattern@ },
            Request::Packages { root } => RequestView::Packages { root: root@ },
        }
    }
}

impl View for Reply {
    type V = ReplyView;

    open spec fn view(&self) -> ReplyView {
        match self {
            Reply::Entries { names } => ReplyView::Entries { names: paths_view(names@) },
            Reply::Canonical { path } => ReplyView::Canonical { path: path@ },
            Reply::Exists { present } => ReplyView::Exists { present: *present },
            Reply::Contents { bytes } => ReplyView::Contents { bytes: bytes@ },
            Reply::Matches { paths } => ReplyView::Matches { paths: paths_view(paths@) },
            Reply::PatternRejected => ReplyView::PatternRejected,
            Reply::Packages { found } => ReplyView::Packages { found: found_view(*found) },
            Reply::Failed { kind } => ReplyView::Failed { kind: *kind },
        }
    }
}

impl ReplyView {
    /// The failure that a reply stands for where it does not answer the
    /// request: the one the filesystem reported, or `Other` for a reply
    /// of the wrong kind.
    pub open spec fn failure(self) -> Failure {
        match self {
            ReplyView::Failed { kind } => Failure::Io(kind),
            _ => Failure::Io(IoKind::Other),
        }
    }
}

/// The canonical form of `path` in `world`.
pub open spec fn canonical_in(world: World, path: Seq<u8>) -> Result<Seq<u8>, Failure> {
    match world(RequestView::Canonicalize { path }) {
        ReplyView::Canonical { path } => Ok(path),
        reply => Err(reply.failure()),
    }
}

impl Reply {
    /// The failure that the reply stands for where it does not answer the
    /// request.
    pub fn failure(&self) -> (r: Failure)
        ensures
            r == self@.failure(),
    {
        match self {
            Reply::Failed { kind } => Failure::Io(*kind),
            _ => Failure::Io(IoKind::Other),
        }
    }
}

} // verus!
