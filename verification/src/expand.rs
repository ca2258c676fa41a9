//! Expanding the workspace patterns of a repository into its package
//! directories.

use vstd::prelude::*;
use vstd::slice::slice_to_vec;
use crate::failure::Failure;
use crate::manifest::{manifest_entries, manifest_file_name, manifest_name, workspace_entries};
use crate::path::{join, joined};
use crate::pattern::{entry_pattern, full_pattern};
use crate::protocol::{paths_view, Reply, ReplyView, Request, RequestView, World};

verus! {

/// An expansion of workspace patterns.
#[derive(Debug, PartialEq, Eq)]
pub enum Expansion {
    /// The manifest under `root` is wanted.
    Reading { root: Vec<u8> },
    /// The matches of `pattern` are wanted. It is the pattern of the entry
    /// before `next`; the matches of the entries before that one are in
    /// `found`.
    Globbing {
        root: Vec<u8>,
        entries: Vec<Option<String>>,
        next: usize,
        pattern: String,
        found: Vec<Vec<u8>>,
    },
    /// The expansion is over: these are the package directories.
    Done { packages: Vec<Vec<u8>> },
    /// The expansion is over and came to nothing.
    Failed { failure: Failure },
}

/// An `Expansion` as a mathematical value.
pub enum ExpansionView {
    Reading { root: Seq<u8> },
    Globbing {
        root: Seq<u8>,
        entries: Seq<Option<Seq<char>>>,
        next: nat,
        pattern: Seq<char>,
        found: Seq<Seq<u8>>,
    },
    Done { packages: Seq<Seq<u8>> },
    Failed { failure: Failure },
}

impl View for Expansion {
    type V = ExpansionView;

    open spec fn view(&self) -> ExpansionView {
        match self {
            Expansion::Reading { root } => ExpansionView::Reading { root: root@ },
            Expansion::Globbing { root, entries, next, pattern, found } => ExpansionView::Globbing {
                root: root@,
                entries: entries.deep_view(),
                next: *next as nat,
                pattern: pattern@,
                found: paths_view(found@),
            },
            Expansion::Done { packages } => ExpansionView::Done { packages: paths_view(packages@) },
            Expansion::Failed { failure } => ExpansionView::Failed { failure: *failure },
        }
    }
}

/// The expansion once the entries before `next` have given `found`: over
/// where no entry is left, else waiting for the matches of entry `next`,
/// or failed where that entry has no pattern.
pub open spec fn prepared(
    root: Seq<u8>,
    entries: Seq<Option<Seq<char>>>,
    next: nat,
    found: Seq<Seq<u8>>,
) -> ExpansionView {
    if next >= entries.len() {
        ExpansionView::Done { packages: found }
    } else {
        match entry_pattern(root, entries[next as int]) {
            Ok(pattern) => ExpansionView::Globbing { root, entries, next: next + 1, pattern, found },
            Err(failure) => ExpansionView::Failed { failure },
        }
    }
}

impl ExpansionView {
    /// What the expansion wants to know next; `None` once it is over.
    pub open spec fn request(self) -> Option<RequestView> {
        match self {
            ExpansionView::Reading { root } => Some(
                RequestView::ReadFile { path: joined(root, manifest_name()) },
            ),
            ExpansionView::Globbing { pattern, .. } => Some(RequestView::Glob { pattern }),
            _ => None,
        }
    }

    /// The expansion after `reply` to its request.
    ///
    /// The manifest's entries are expanded one after the other, and the
    /// matches of each are added behind those of the entries before it. A
    /// manifest that cannot be read or understood, an entry without a
    /// pattern, a pattern that is refused and a failure of the filesystem
    /// each end the expansion; the last with the failure that the reply
    /// stands for. An expansion that is over stays as it is.
    pub open spec fn advance(self, reply: ReplyView) -> ExpansionView {
        match self {
            ExpansionView::Reading { root } => match reply {
                ReplyView::Contents { bytes } => match manifest_entries(bytes) {
                    Ok(entries) => prepared(root, entries, 0, Seq::empty()),
                    Err(failure) => ExpansionView::Failed { failure },
                },
                _ => ExpansionView::Failed { failure: Failure::ManifestUnreadable },
            },
            ExpansionView::Globbing { root, entries, next, pattern, found } => match reply {
                ReplyView::Matches { paths } => prepared(root, entries, next, found + paths),
                ReplyView::PatternRejected => ExpansionView::Failed {
                    failure: Failure::InvalidPattern,
                },
                _ => ExpansionView::Failed { failure: reply.failure() },
            },
            _ => self,
        }
    }

    /// What the expansion came to; `None` while it goes on.
    pub open spec fn outcome(self) -> Option<Result<Seq<Seq<u8>>, Failure>> {
        match self {
            ExpansionView::Done { packages } => Some(Ok(packages)),
            ExpansionView::Failed { failure } => Some(Err(failure)),
            _ => None,
        }
    }
}

/// The expansion after `steps` rounds of asking `world` and taking its
/// answer.
pub open spec fn run(world: World, expansion: ExpansionView, steps: nat) -> ExpansionView
    decreases steps,
{
    match expansion.request() {
        Some(request) if steps > 0 => run(
            world,
            expansion.advance(world(request)),
            (steps - 1) as nat,
        ),
        _ => expansion,
    }
}

/// The package directories that the entries from `next` on add to `found`
/// in `world`.
pub open spec fn expand_from(
    world: World,
    root: Seq<u8>,
    entries: Seq<Option<Seq<char>>>,
    next: nat,
    found: Seq<Seq<u8>>,
) -> Result<Seq<Seq<u8>>, Failure>
    decreases entries.len() - next,
{
    if next >= entries.len() {
        Ok(found)
    } else {
        match entry_pattern(root, entries[next as int]) {
            Ok(pattern) => match world(RequestView::Glob { pattern }) {
                ReplyView::Matches { paths } => expand_from(
                    world,
                    root,
                    entries,
                    next + 1,
                    found + paths,
                ),
                ReplyView::PatternRejected => Err(Failure::InvalidPattern),
                reply => Err(reply.failure()),
            },
            Err(failure) => Err(failure),
        }
    }
}

/// The package directories of the repository at `root` in `world`: the
/// matches of each workspace pattern of its manifest, in the order of the
/// patterns and, for each pattern, in the order glob gives them.
pub open spec fn expand(world: World, root: Seq<u8>) -> Result<Seq<Seq<u8>>, Failure> {
    match world(RequestView::ReadFile { path: joined(root, manifest_name()) }) {
        ReplyView::Contents { bytes } => match manifest_entries(bytes) {
            Ok(entries) => expand_from(world, root, entries, 0, Seq::empty()),
            Err(failure) => Err(failure),
        },
        _ => Err(Failure::ManifestUnreadable),
    }
}

/// The number of rounds after which the expansion under `root` in `world`
/// is over: one for the manifest and one for each of its entries.
pub open spec fn rounds(world: World, root: Seq<u8>) -> nat {
    match world(RequestView::ReadFile { path: joined(root, manifest_name()) }) {
        ReplyView::Contents { bytes } => match manifest_entries(bytes) {
            Ok(entries) => 1 + entries.len(),
            Err(_) => 1,
        },
        _ => 1,
    }
}

/// From any entry on, an expansion that is given a round for each entry
/// left ends with what `expand_from` says.
pub proof fn lemma_run_expands_from(
    world: World,
    root: Seq<u8>,
    entries: Seq<Option<Seq<char>>>,
    next: nat,
    found: Seq<Seq<u8>>,
    steps: nat,
)
    requires
        next + steps >= entries.len(),
    ensures
        run(world, prepared(root, entries, next, found), steps).outcome() == Some(
            expand_from(world, root, entries, next, found),
        ),
    decreases entries.len() - next,
{
    if next < entries.len() {
        if let Ok(pattern) = entry_pattern(root, entries[next as int]) {
            let now = prepared(root, entries, next, found);
            let reply = world(RequestView::Glob { pattern });
            assert(run(world, now, steps) == run(world, now.advance(reply), (steps - 1) as nat));
            if let ReplyView::Matches { paths } = reply {
                lemma_run_expands_from(
                    world,
                    root,
                    entries,
                    next + 1,
                    found + paths,
                    (steps - 1) as nat,
                );
            }
        }
    }
}

/// An expansion that is given enough rounds ends with what `expand` says.
pub proof fn lemma_run_expands(world: World, root: Seq<u8>, steps: nat)
    requires
        steps >= rounds(world, root),
    ensures
        run(world, ExpansionView::Reading { root }, steps).outcome() == Some(expand(world, root)),
{
    let start = ExpansionView::Reading { root };
    let reply = world(RequestView::ReadFile { path: joined(root, manifest_name()) });
    assert(run(world, start, steps) == run(world, start.advance(reply), (steps - 1) as nat));
    if let ReplyView::Contents { bytes } = reply {
        if let Ok(entries) = manifest_entries(bytes) {
            lemma_run_expands_from(world, root, entries, 0, Seq::empty(), (steps - 1) as nat);
        }
    }
}

impl Expansion {
    /// Starts the expansion of the workspace patterns of the repository at
    /// `root`.
    pub fn begin(root: &[u8]) -> (expansion: Expansion)
        ensures
            expansion@ == (ExpansionView::Reading { root: root@ }),
    {
        Expansion::Reading { root: slice_to_vec(root) }
    }

    /// The expansion once the entries before `next` have given `found`.
    pub fn prepare(
        root: Vec<u8>,
        entries: Vec<Option<String>>,
        next: usize,
        found: Vec<Vec<u8>>,
    ) -> (expansion: Expansion)
        ensures
            expansion@ == prepared(root@, entries.deep_view(), next as nat, paths_view(found@)),
    {
        if next >= entries.len() {
            return Expansion::Done { packages: found };
        }
        match full_pattern(root.as_slice(), &entries[next]) {
            Ok(pattern) => Expansion::Globbing { root, entries, next: next + 1, pattern, found },
            Err(failure) => Expansion::Failed { failure },
        }
    }

    /// What the expansion wants to know next; `None` once it is over.
    pub fn request(&self) -> (r: Option<Request>)
        ensures
            self@.request() == match r {
                Some(request) => Some(request@),
                None => None,
            },
    {
        match self {
            Expansion::Reading { root } => {
                let name = manifest_file_name();
                Some(Request::ReadFile { path: join(root.as_slice(), name.as_slice()) })
            },
            Expansion::Globbing { pattern, .. } => Some(Request::Glob { pattern: pattern.clone() }),
            _ => None,
        }
    }

    /// Takes the reply to the request and moves on.
    pub fn advance(self, reply: Reply) -> (next: Expansion)
        ensures
            next@ == self@.advance(reply@),
    {
        match self {
            Expansion::Reading { root } => match reply {
                Reply::Contents { bytes } => match workspace_entries(bytes.as_slice()) {
                    Ok(entries) => {
                        let found: Vec<Vec<u8>> = Vec::new();
                        assert(paths_view(found@) =~= Seq::empty());
                        Expansion::prepare(root, entries, 0, found)
                    },
                    Err(failure) => Expansion::Failed { failure },
                },
                _ => Expansion::Failed { failure: Failure::ManifestUnreadable },
            },
            Expansion::Globbing { root, entries, next, pattern, found } => match reply {
                Reply::Matches { paths } => {
                    let mut found = found;
                    let mut paths = paths;
                    let ghost before = paths_view(found@);
                    let ghost added = paths_view(paths@);
                    found.append(&mut paths);
                    assert(paths_view(found@) =~= before + added);
                    Expansion::prepare(root, entries, next, found)
                },
                Reply::PatternRejected => Expansion::Failed { failure: Failure::InvalidPattern },
                other => Expansion::Failed { failure: other.failure() },
            },
            other => other,
        }
    }

    /// What the expansion came to; `None` while it goes on.
    pub fn outcome(self) -> (r: Option<Result<Vec<Vec<u8>>, Failure>>)
        ensures
            self@.outcome() == match r {
                Some(Ok(packages)) => Some(Ok(paths_view(packages@))),
                Some(Err(failure)) => Some(Err(failure)),
                None => None,
            },
    {
        match self {
            Expansion::Done { packages } => Some(Ok(packages)),
            Expansion::Failed { failure } => Some(Err(failure)),
            _ => None,
        }
    }
}

} // verus!
