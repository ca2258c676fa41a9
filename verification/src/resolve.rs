//! Resolving a fragment typed by the user into a directory of the
//! repository.

use vstd::prelude::*;
use vstd::slice::slice_to_vec;
use vstd::utf8::valid_utf8;
use crate::expand::{expand, Expansion};
use crate::failure::{Failure, IoKind};
use crate::manifest::manifest_name;
use crate::path::{
    ancestor, append, ends_with, is_suffix, join, joined, lemma_ancestors_differ,
    lemma_ancestor_is_shorter, lemma_parent_is_shorter, parent, parent_of, same_bytes,
};
use crate::protocol::{
    canonical_in, found_view, paths_view, Reply, ReplyView, Request, RequestView, World,
};
use crate::text::is_text;

verus! {

/// The byte that ends a line of the listing.
pub const NEWLINE: u8 = '\n' as u8;

/// The fragment that stands for the directory left last: `-`.
pub open spec fn previous_token() -> Seq<u8> {
    seq!['-' as u8]
}

/// The fragment that stands for the repository root: `/`.
pub open spec fn root_token() -> Seq<u8> {
    seq!['/' as u8]
}

/// The fragment that stands for the current directory: `.`.
pub open spec fn here_token() -> Seq<u8> {
    seq!['.' as u8]
}

/// The package directory can be matched at all: its path is UTF-8 text and
/// not empty.
pub open spec fn usable(package: Seq<u8>) -> bool {
    valid_utf8(package) && package.len() > 0
}

/// The fragment names the package directory: the directory's path ends
/// with it. The test is on the text, not on whole components.
pub open spec fn fits(package: Seq<u8>, pattern: Seq<u8>) -> bool {
    usable(package) && is_suffix(package, pattern)
}

/// The first of the package directories that the fragment names.
pub open spec fn first_match(packages: Seq<Seq<u8>>, pattern: Seq<u8>) -> Option<Seq<u8>>
    decreases packages.len(),
{
    if packages.len() == 0 {
        None
    } else if fits(packages[0], pattern) {
        Some(packages[0])
    } else {
        first_match(packages.drop_first(), pattern)
    }
}

/// The package directories that an expansion gave; none where it failed.
pub open spec fn packages_or_empty(found: Result<Seq<Seq<u8>>, Failure>) -> Seq<Seq<u8>> {
    match found {
        Ok(packages) => packages,
        Err(_) => Seq::empty(),
    }
}

/// The package directory that a fragment names by its end.
pub open spec fn package_path_of(found: Result<Seq<Seq<u8>>, Failure>, pattern: Seq<u8>) -> Result<
    Seq<u8>,
    Failure,
> {
    if !valid_utf8(pattern) {
        Err(Failure::InvalidInput)
    } else {
        match first_match(packages_or_empty(found), pattern) {
            Some(package) => Ok(package),
            None => Err(Failure::FragmentNotFound),
        }
    }
}

/// The line of the listing for one package directory: its path where that
/// is UTF-8 text, nothing where it is not, and the end of the line.
pub open spec fn line_of(package: Seq<u8>) -> Seq<u8> {
    if valid_utf8(package) {
        package.push(NEWLINE)
    } else {
        seq![NEWLINE]
    }
}

/// The listing of package directories: one line for each, in order.
pub open spec fn listing_of(packages: Seq<Seq<u8>>) -> Seq<u8>
    decreases packages.len(),
{
    if packages.len() == 0 {
        Seq::empty()
    } else {
        listing_of(packages.drop_last()) + line_of(packages.last())
    }
}

/// A repository and the place in it from which fragments are resolved.
#[derive(Debug, PartialEq, Eq)]
pub struct Mr {
    /// The repository root. It is handed out as it is for the root token.
    pub root: Vec<u8>,
    /// The directory the user is in. It is handed out as it is for the
    /// token of the current directory.
    pub base: Vec<u8>,
}

/// An `Mr` as a mathematical value.
pub struct MrView {
    pub root: Seq<u8>,
    pub base: Seq<u8>,
}

impl View for Mr {
    type V = MrView;

    open spec fn view(&self) -> MrView {
        MrView { root: self.root@, base: self.base@ }
    }
}

/// The resolution of a fragment.
#[derive(Debug, PartialEq, Eq)]
pub enum Resolution {
    /// The package directories of the repository at `root` are wanted.
    Gathering { root: Vec<u8>, base: Vec<u8>, pattern: Vec<u8> },
    /// No package directory is named; the canonical form of `root` is
    /// wanted, to know where the walk ends.
    Anchoring { root: Vec<u8>, base: Vec<u8>, pattern: Vec<u8> },
    /// The canonical form of `base` is wanted, to know where the walk
    /// starts; `root` is in canonical form.
    Placing { root: Vec<u8>, base: Vec<u8>, pattern: Vec<u8> },
    /// Whether `pattern` exists under `dir` is wanted; `root` and `dir`
    /// are in canonical form.
    Probing { root: Vec<u8>, dir: Vec<u8>, pattern: Vec<u8> },
    /// The canonical form of `path` is wanted.
    Settling { path: Vec<u8> },
    /// The resolution is over: this is the directory.
    Done { path: Vec<u8> },
    /// The resolution is over and found no directory.
    Failed { failure: Failure },
}

/// A `Resolution` as a mathematical value.
pub enum ResolutionView {
    Gathering { root: Seq<u8>, base: Seq<u8>, pattern: Seq<u8> },
    Anchoring { root: Seq<u8>, base: Seq<u8>, pattern: Seq<u8> },
    Placing { root: Seq<u8>, base: Seq<u8>, pattern: Seq<u8> },
    Probing { root: Seq<u8>, dir: Seq<u8>, pattern: Seq<u8> },
    Settling { path: Seq<u8> },
    Done { path: Seq<u8> },
    Failed { failure: Failure },
}

impl View for Resolution {
    type V = ResolutionView;

    open spec fn view(&self) -> ResolutionView {
        match self {
            Resolution::Gathering { root, base, pattern } => ResolutionView::Gathering {
                root: root@,
                base: base@,
                pattern: pattern@,
            },
            Resolution::Anchoring { root, base, pattern } => ResolutionView::Anchoring {
                root: root@,
                base: base@,
                pattern: pattern@,
            },
            Resolution::Placing { root, base, pattern } => ResolutionView::Placing {
                root: root@,
                base: base@,
                pattern: pattern@,
            },
            Resolution::Probing { root, dir, pattern } => ResolutionView::Probing {
                root: root@,
                dir: dir@,
                pattern: pattern@,
            },
            Resolution::Settling { path } => ResolutionView::Settling { path: path@ },
            Resolution::Done { path } => ResolutionView::Done { path: path@ },
            Resolution::Failed { failure } => ResolutionView::Failed { failure: *failure },
        }
    }
}

/// The package directories that a reply to `Packages` stands for: those
/// it brings, none where the expansion failed or the reply is another.
pub open spec fn gathered(reply: ReplyView) -> Result<Seq<Seq<u8>>, Failure> {
    match reply {
        ReplyView::Packages { found } => found,
        _ => Err(reply.failure()),
    }
}

/// What `world` answers when asked for the package directories under
/// `root`.
pub open spec fn packages_in(world: World, root: Seq<u8>) -> Result<Seq<Seq<u8>>, Failure> {
    gathered(world(RequestView::Packages { root }))
}

/// In `world` the package directories of every root are what the
/// expansion of its workspace patterns comes to.
pub open spec fn coherent(world: World) -> bool {
    forall|root: Seq<u8>| #[trigger] packages_in(world, root) == expand(world, root)
}

/// The directory that `-` stands for: the one left last where it is known
/// and its path is UTF-8 text, else the current one.
pub open spec fn previous_or(previous: Option<Seq<u8>>, base: Seq<u8>) -> Seq<u8> {
    match previous {
        Some(path) if valid_utf8(path) => path,
        _ => base,
    }
}

impl MrView {
    /// Where the resolution of `pattern` starts.
    ///
    /// The three tokens are answered at once and as they are: `-` with the
    /// directory left last, or the current one where none is known, `/`
    /// with the root, `.` with the current directory. A fragment that is
    /// no UTF-8 text is refused. Any other fragment is looked up among the
    /// package directories first.
    pub open spec fn start(self, pattern: Seq<u8>, previous: Option<Seq<u8>>) -> ResolutionView {
        if pattern == previous_token() {
            ResolutionView::Done { path: previous_or(previous, self.base) }
        } else if pattern == root_token() {
            ResolutionView::Done { path: self.root }
        } else if pattern == here_token() {
            ResolutionView::Done { path: self.base }
        } else if !valid_utf8(pattern) {
            ResolutionView::Failed { failure: Failure::InvalidInput }
        } else {
            ResolutionView::Gathering { root: self.root, base: self.base, pattern }
        }
    }
}

impl ResolutionView {
    /// What the resolution wants to know next; `None` once it is over.
    pub open spec fn request(self) -> Option<RequestView> {
        match self {
            ResolutionView::Gathering { root, .. } => Some(RequestView::Packages { root }),
            ResolutionView::Anchoring { root, .. } => Some(RequestView::Canonicalize { path: root }),
            ResolutionView::Placing { base, .. } => Some(RequestView::Canonicalize { path: base }),
            ResolutionView::Probing { dir, pattern, .. } => Some(
                RequestView::Exists { path: joined(dir, pattern) },
            ),
            ResolutionView::Settling { path } => Some(RequestView::Canonicalize { path }),
            _ => None,
        }
    }

    /// The resolution after `reply` to its request.
    ///
    /// The first package directory that the fragment names is settled on.
    /// Where there is none, the directories from the current one up to the
    /// root, both taken in canonical form, are probed for the fragment,
    /// nearest first; the walk ends with `FragmentNotFound` at the root,
    /// and never goes above it. A reply that does not answer a probe or a
    /// request for a canonical form ends the resolution with the failure
    /// it stands for. A resolution that is over stays as it is.
    pub open spec fn advance(self, reply: ReplyView) -> ResolutionView {
        match self {
            ResolutionView::Gathering { root, base, pattern } => match package_path_of(
                gathered(reply),
                pattern,
            ) {
                Ok(path) => ResolutionView::Settling { path },
                Err(Failure::FragmentNotFound) => ResolutionView::Anchoring { root, base, pattern },
                Err(failure) => ResolutionView::Failed { failure },
            },
            ResolutionView::Anchoring { root, base, pattern } => match reply {
                ReplyView::Canonical { path } => ResolutionView::Placing {
                    root: path,
                    base,
                    pattern,
                },
                _ => ResolutionView::Failed { failure: reply.failure() },
            },
            ResolutionView::Placing { root, base, pattern } => match reply {
                ReplyView::Canonical { path } => ResolutionView::Probing {
                    root,
                    dir: path,
                    pattern,
                },
                _ => ResolutionView::Failed { failure: reply.failure() },
            },
            ResolutionView::Probing { root, dir, pattern } => match reply {
                ReplyView::Exists { present } => if present {
                    ResolutionView::Settling { path: joined(dir, pattern) }
                } else if dir == root {
                    ResolutionView::Failed { failure: Failure::FragmentNotFound }
                } else {
                    match parent_of(dir) {
                        Some(up) => ResolutionView::Probing { root, dir: up, pattern },
                        None => ResolutionView::Failed { failure: Failure::FragmentNotFound },
                    }
                },
                _ => ResolutionView::Failed { failure: reply.failure() },
            },
            ResolutionView::Settling { path } => match reply {
                ReplyView::Canonical { path } => ResolutionView::Done { path },
                _ => ResolutionView::Failed { failure: reply.failure() },
            },
            _ => self,
        }
    }

    /// What the resolution came to; `None` while it goes on.
    pub open spec fn outcome(self) -> Option<Result<Seq<u8>, Failure>> {
        match self {
            ResolutionView::Done { path } => Some(Ok(path)),
            ResolutionView::Failed { failure } => Some(Err(failure)),
            _ => None,
        }
    }

    /// An upper bound on the replies that the resolution can still take,
    /// once the walk has its start.
    pub open spec fn budget(self) -> nat {
        match self {
            ResolutionView::Probing { dir, .. } => dir.len() + 2,
            ResolutionView::Settling { .. } => 1,
            _ => 0,
        }
    }
}

/// The resolution after `steps` rounds of asking `world` and taking its
/// answer.
pub open spec fn run(world: World, resolution: ResolutionView, steps: nat) -> ResolutionView
    decreases steps,
{
    match resolution.request() {
        Some(request) if steps > 0 => run(
            world,
            resolution.advance(world(request)),
            (steps - 1) as nat,
        ),
        _ => resolution,
    }
}

/// The fragment exists under `dir` in `world`.
pub open spec fn present(world: World, dir: Seq<u8>, pattern: Seq<u8>) -> bool {
    world(RequestView::Exists { path: joined(dir, pattern) }) == (ReplyView::Exists {
        present: true,
    })
}

/// The fragment does not exist under `dir` in `world`.
pub open spec fn absent(world: World, dir: Seq<u8>, pattern: Seq<u8>) -> bool {
    world(RequestView::Exists { path: joined(dir, pattern) }) == (ReplyView::Exists {
        present: false,
    })
}

/// What the walk from the directory `dir` up to `root`, both in canonical
/// form, finds in `world`: the canonical form of the fragment under the
/// nearest directory that has it.
pub open spec fn walk(world: World, root: Seq<u8>, dir: Seq<u8>, pattern: Seq<u8>) -> Result<
    Seq<u8>,
    Failure,
>
    decreases dir.len(),
{
    if present(world, dir, pattern) {
        canonical_in(world, joined(dir, pattern))
    } else if absent(world, dir, pattern) {
        if dir == root {
            Err(Failure::FragmentNotFound)
        } else {
            match parent_of(dir) {
                Some(up) => {
                    proof {
                        lemma_parent_is_shorter(dir);
                    }
                    walk(world, root, up, pattern)
                },
                None => Err(Failure::FragmentNotFound),
            }
        }
    } else {
        Err(world(RequestView::Exists { path: joined(dir, pattern) }).failure())
    }
}

/// What the walk for `pattern` finds in `world`, from the canonical form
/// of `base` up to the canonical form of `root`.
pub open spec fn walk_between(
    world: World,
    root: Seq<u8>,
    base: Seq<u8>,
    pattern: Seq<u8>,
) -> Result<Seq<u8>, Failure> {
    match canonical_in(world, root) {
        Ok(top) => match canonical_in(world, base) {
            Ok(dir) => walk(world, top, dir, pattern),
            Err(failure) => Err(failure),
        },
        Err(failure) => Err(failure),
    }
}

/// The directory that `pattern` resolves to in `world`.
pub open spec fn resolve(
    world: World,
    mr: MrView,
    pattern: Seq<u8>,
    previous: Option<Seq<u8>>,
) -> Result<Seq<u8>, Failure> {
    match mr.start(pattern, previous) {
        ResolutionView::Gathering { root, base, pattern } => match package_path_of(
            packages_in(world, root),
            pattern,
        ) {
            Ok(path) => canonical_in(world, path),
            Err(Failure::FragmentNotFound) => walk_between(world, root, base, pattern),
            Err(failure) => Err(failure),
        },
        ResolutionView::Done { path } => Ok(path),
        ResolutionView::Failed { failure } => Err(failure),
        _ => Err(Failure::Io(IoKind::Other)),
    }
}

/// The number of rounds after which the resolution of a fragment from
/// `mr` in `world` is over: one for the package directories, two for the
/// canonical forms of root and current directory, one for each directory
/// that can be probed on the way up, and one to settle.
pub open spec fn rounds(world: World, mr: MrView) -> nat {
    match canonical_in(world, mr.base) {
        Ok(dir) => dir.len() + 5,
        Err(_) => 3,
    }
}

/// The fragment is none of the three tokens, and it is UTF-8 text.
pub open spec fn is_name(pattern: Seq<u8>) -> bool {
    &&& pattern != previous_token()
    &&& pattern != root_token()
    &&& pattern != here_token()
    &&& valid_utf8(pattern)
}

/// What `first_match` returns is the earliest package directory that the
/// fragment names, and it returns nothing only where the fragment names
/// none.
pub proof fn lemma_first_match_is_earliest(packages: Seq<Seq<u8>>, pattern: Seq<u8>)
    ensures
        match first_match(packages, pattern) {
            Some(package) => exists|i: int|
                0 <= i < packages.len() && #[trigger] packages[i] == package && fits(
                    package,
                    pattern,
                ) && forall|j: int| 0 <= j < i ==> !fits(#[trigger] packages[j], pattern),
            None => forall|j: int| 0 <= j < packages.len() ==> !fits(#[trigger] packages[j], pattern),
        },
    decreases packages.len(),
{
    if packages.len() > 0 && !fits(packages[0], pattern) {
        let rest = packages.drop_first();
        lemma_first_match_is_earliest(rest, pattern);
        match first_match(rest, pattern) {
            Some(package) => {
                let i = choose|i: int|
                    0 <= i < rest.len() && #[trigger] rest[i] == package && fits(package, pattern)
                        && forall|j: int| 0 <= j < i ==> !fits(#[trigger] rest[j], pattern);
                assert(packages[i + 1] == package);
                assert forall|j: int| 0 <= j < i + 1 implies !fits(
                    #[trigger] packages[j],
                    pattern,
                ) by {
                    if j > 0 {
                        assert(rest[j - 1] == packages[j]);
                    }
                }
            },
            None => {
                assert forall|j: int| 0 <= j < packages.len() implies !fits(
                    #[trigger] packages[j],
                    pattern,
                ) by {
                    if j > 0 {
                        assert(rest[j - 1] == packages[j]);
                    }
                }
            },
        }
    } else if packages.len() > 0 {
        assert(packages[0] == packages[0]);
    }
}

/// A resolution is over exactly where it asks nothing. Once the walk has
/// its start, every reply brings the resolution nearer to its end: from
/// the directory `dir` it is over after at most `dir.len() + 2` replies,
/// whatever they are. Before that it takes at most three replies.
pub proof fn lemma_advance_spends_budget(resolution: ResolutionView, reply: ReplyView)
    ensures
        resolution.request() is None <==> resolution.outcome() is Some,
        resolution is Probing || resolution is Settling ==> resolution.advance(reply).budget()
            < resolution.budget(),
        resolution is Gathering ==> !(resolution.advance(reply) is Gathering),
        resolution is Anchoring ==> !(resolution.advance(reply) is Gathering)
            && !(resolution.advance(reply) is Anchoring),
        resolution is Placing ==> resolution.advance(reply) is Probing || resolution.advance(
            reply,
        ) is Failed,
{
    if let ResolutionView::Probing { dir, .. } = resolution {
        lemma_parent_is_shorter(dir);
    }
}

/// A settling that is given a round ends with the canonical form.
pub proof fn lemma_run_settles(world: World, path: Seq<u8>, steps: nat)
    requires
        steps >= 1,
    ensures
        run(world, ResolutionView::Settling { path }, steps).outcome() == Some(
            canonical_in(world, path),
        ),
{
    let now = ResolutionView::Settling { path };
    let next = now.advance(world(RequestView::Canonicalize { path }));
    assert(run(world, now, steps) == run(world, next, (steps - 1) as nat));
}

/// A walk that is given enough rounds ends with what `walk` says.
pub proof fn lemma_run_walks(
    world: World,
    root: Seq<u8>,
    dir: Seq<u8>,
    pattern: Seq<u8>,
    steps: nat,
)
    requires
        steps >= dir.len() + 2,
    ensures
        run(world, ResolutionView::Probing { root, dir, pattern }, steps).outcome() == Some(
            walk(world, root, dir, pattern),
        ),
    decreases dir.len(),
{
    let now = ResolutionView::Probing { root, dir, pattern };
    let next = now.advance(world(RequestView::Exists { path: joined(dir, pattern) }));
    assert(run(world, now, steps) == run(world, next, (steps - 1) as nat));
    match next {
        ResolutionView::Probing { dir: up, .. } => {
            lemma_parent_is_shorter(dir);
            lemma_run_walks(world, root, up, pattern, (steps - 1) as nat);
        },
        ResolutionView::Settling { path } => {
            lemma_run_settles(world, path, (steps - 1) as nat);
        },
        _ => {},
    }
}

/// A walk that first has to learn where it starts and ends, and is given
/// enough rounds, ends with what `walk_between` says.
pub proof fn lemma_run_walks_between(
    world: World,
    root: Seq<u8>,
    base: Seq<u8>,
    pattern: Seq<u8>,
    steps: nat,
)
    requires
        steps >= 2,
        canonical_in(world, base) matches Ok(dir) ==> steps >= dir.len() + 4,
    ensures
        run(world, ResolutionView::Anchoring { root, base, pattern }, steps).outcome() == Some(
            walk_between(world, root, base, pattern),
        ),
{
    let now = ResolutionView::Anchoring { root, base, pattern };
    let next = now.advance(world(RequestView::Canonicalize { path: root }));
    assert(run(world, now, steps) == run(world, next, (steps - 1) as nat));
    if let ResolutionView::Placing { root: top, .. } = next {
        let then = next.advance(world(RequestView::Canonicalize { path: base }));
        assert(run(world, next, (steps - 1) as nat) == run(world, then, (steps - 2) as nat));
        if let ResolutionView::Probing { dir, .. } = then {
            lemma_run_walks(world, top, dir, pattern, (steps - 2) as nat);
        }
    }
}

/// A resolution that is given enough rounds ends with what `resolve` says.
pub proof fn lemma_run_resolves(
    world: World,
    mr: MrView,
    pattern: Seq<u8>,
    previous: Option<Seq<u8>>,
    steps: nat,
)
    requires
        steps >= rounds(world, mr),
    ensures
        run(world, mr.start(pattern, previous), steps).outcome() == Some(
            resolve(world, mr, pattern, previous),
        ),
{
    let now = mr.start(pattern, previous);
    if let ResolutionView::Gathering { root, base, pattern } = now {
        let next = now.advance(world(RequestView::Packages { root }));
        assert(run(world, now, steps) == run(world, next, (steps - 1) as nat));
        match next {
            ResolutionView::Anchoring { .. } => {
                lemma_run_walks_between(world, root, base, pattern, (steps - 1) as nat);
            },
            ResolutionView::Settling { path } => {
                lemma_run_settles(world, path, (steps - 1) as nat);
            },
            _ => {},
        }
    }
}

/// The root token resolves to the root as it is, wherever the user stands
/// and whatever the filesystem holds.
pub proof fn lemma_root_token_gives_root(
    world: World,
    mr: MrView,
    previous: Option<Seq<u8>>,
    steps: nat,
)
    ensures
        mr.start(root_token(), previous) == (ResolutionView::Done { path: mr.root }),
        resolve(world, mr, root_token(), previous) == Ok::<Seq<u8>, Failure>(mr.root),
        run(world, mr.start(root_token(), previous), steps).outcome() == Some(
            Ok::<Seq<u8>, Failure>(mr.root),
        ),
{
    assert(root_token()[0] != previous_token()[0]);
}

/// A fragment that names a package directory resolves to the first such
/// directory in the order of the expansion, canonicalized.
pub proof fn lemma_first_package_wins(
    world: World,
    mr: MrView,
    pattern: Seq<u8>,
    previous: Option<Seq<u8>>,
    packages: Seq<Seq<u8>>,
    index: int,
)
    requires
        is_name(pattern),
        world(RequestView::Packages { root: mr.root }) == (ReplyView::Packages {
            found: Ok(packages),
        }),
        0 <= index < packages.len(),
        fits(packages[index], pattern),
        forall|j: int| 0 <= j < index ==> !fits(#[trigger] packages[j], pattern),
    ensures
        resolve(world, mr, pattern, previous) == canonical_in(world, packages[index]),
{
    lemma_first_match_is_earliest(packages, pattern);
}

/// What the walk finds where the fragment exists under the directory
/// `levels` steps above `dir` and under none below it, and the root is not
/// below it either: the fragment under that directory.
pub proof fn lemma_walk_stops_at_nearest(
    world: World,
    root: Seq<u8>,
    dir: Seq<u8>,
    pattern: Seq<u8>,
    levels: nat,
)
    requires
        ancestor(dir, levels) is Some,
        forall|i: nat|
            i < levels ==> absent(world, #[trigger] ancestor(dir, i).unwrap(), pattern)
                && ancestor(dir, i).unwrap() != root,
        present(world, ancestor(dir, levels).unwrap(), pattern),
    ensures
        walk(world, root, dir, pattern) == canonical_in(
            world,
            joined(ancestor(dir, levels).unwrap(), pattern),
        ),
    decreases levels,
{
    if levels > 0 {
        assert(absent(world, ancestor(dir, 0).unwrap(), pattern));
        let up = parent_of(dir).unwrap();
        assert forall|i: nat| i < levels - 1 implies absent(
            world,
            #[trigger] ancestor(up, i).unwrap(),
            pattern,
        ) && ancestor(up, i).unwrap() != root by {
            assert(ancestor(dir, i + 1) == ancestor(up, i));
            assert(absent(world, ancestor(dir, i + 1).unwrap(), pattern));
        }
        lemma_walk_stops_at_nearest(world, root, up, pattern, (levels - 1) as nat);
    }
}

/// What the walk finds where the fragment exists under no directory from
/// `dir` up to the root, `levels` steps above: nothing. It does not look
/// above the root.
pub proof fn lemma_walk_ends_at_root(
    world: World,
    root: Seq<u8>,
    dir: Seq<u8>,
    pattern: Seq<u8>,
    levels: nat,
)
    requires
        ancestor(dir, levels) == Some(root),
        forall|i: nat| i <= levels ==> absent(world, #[trigger] ancestor(dir, i).unwrap(), pattern),
    ensures
        walk(world, root, dir, pattern) == Err::<Seq<u8>, Failure>(Failure::FragmentNotFound),
    decreases levels,
{
    assert(absent(world, ancestor(dir, 0).unwrap(), pattern));
    if levels > 0 {
        lemma_ancestor_is_shorter(dir, levels);
        let up = parent_of(dir).unwrap();
        assert forall|i: nat| i <= levels - 1 implies absent(
            world,
            #[trigger] ancestor(up, i).unwrap(),
            pattern,
        ) by {
            assert(ancestor(dir, i + 1) == ancestor(up, i));
            assert(absent(world, ancestor(dir, i + 1).unwrap(), pattern));
        }
        lemma_walk_ends_at_root(world, root, up, pattern, (levels - 1) as nat);
    }
}

/// With no package directory that the fragment names, in particular with
/// none at all, a fragment that exists under the root and under no
/// directory between the current one and the root resolves to the
/// fragment under the root, canonicalized. Root and current directory
/// are taken in canonical form: `top` and `dir`.
pub proof fn lemma_falls_back_to_walk(
    world: World,
    mr: MrView,
    pattern: Seq<u8>,
    previous: Option<Seq<u8>>,
    top: Seq<u8>,
    dir: Seq<u8>,
    levels: nat,
)
    requires
        is_name(pattern),
        first_match(packages_or_empty(packages_in(world, mr.root)), pattern) is None,
        canonical_in(world, mr.root) == Ok::<Seq<u8>, Failure>(top),
        canonical_in(world, mr.base) == Ok::<Seq<u8>, Failure>(dir),
        ancestor(dir, levels) == Some(top),
        forall|i: nat| i < levels ==> absent(world, #[trigger] ancestor(dir, i).unwrap(), pattern),
        present(world, top, pattern),
    ensures
        resolve(world, mr, pattern, previous) == canonical_in(world, joined(top, pattern)),
        forall|steps: nat|
            steps >= dir.len() + 5 ==> #[trigger] run(
                world,
                mr.start(pattern, previous),
                steps,
            ).outcome() == Some(canonical_in(world, joined(top, pattern))),
{
    assert forall|i: nat| i < levels implies absent(
        world,
        #[trigger] ancestor(dir, i).unwrap(),
        pattern,
    ) && ancestor(dir, i).unwrap() != top by {
        lemma_ancestors_differ(dir, i, levels);
    }
    lemma_walk_stops_at_nearest(world, top, dir, pattern, levels);
    assert forall|steps: nat| steps >= dir.len() + 5 implies #[trigger] run(
        world,
        mr.start(pattern, previous),
        steps,
    ).outcome() == Some(canonical_in(world, joined(top, pattern))) by {
        lemma_run_resolves(world, mr, pattern, previous, steps);
    }
}

/// A fragment that names no package directory and exists under no
/// directory from the current one up to the root, the root included, is
/// not found, whatever lies above the root. Root and current directory
/// are taken in canonical form: `top` and `dir`.
pub proof fn lemma_nothing_up_to_root(
    world: World,
    mr: MrView,
    pattern: Seq<u8>,
    previous: Option<Seq<u8>>,
    top: Seq<u8>,
    dir: Seq<u8>,
    levels: nat,
)
    requires
        is_name(pattern),
        first_match(packages_or_empty(packages_in(world, mr.root)), pattern) is None,
        canonical_in(world, mr.root) == Ok::<Seq<u8>, Failure>(top),
        canonical_in(world, mr.base) == Ok::<Seq<u8>, Failure>(dir),
        ancestor(dir, levels) == Some(top),
        forall|i: nat| i <= levels ==> absent(world, #[trigger] ancestor(dir, i).unwrap(), pattern),
    ensures
        resolve(world, mr, pattern, previous) == Err::<Seq<u8>, Failure>(
            Failure::FragmentNotFound,
        ),
        forall|steps: nat|
            steps >= dir.len() + 5 ==> #[trigger] run(
                world,
                mr.start(pattern, previous),
                steps,
            ).outcome() == Some(Err::<Seq<u8>, Failure>(Failure::FragmentNotFound)),
{
    lemma_walk_ends_at_root(world, top, dir, pattern, levels);
    assert forall|steps: nat| steps >= dir.len() + 5 implies #[trigger] run(
        world,
        mr.start(pattern, previous),
        steps,
    ).outcome() == Some(Err::<Seq<u8>, Failure>(Failure::FragmentNotFound)) by {
        lemma_run_resolves(world, mr, pattern, previous, steps);
    }
}

/// Without a manifest that can be read there are no package directories,
/// so no fragment names one.
pub proof fn lemma_no_manifest_no_match(world: World, root: Seq<u8>, pattern: Seq<u8>)
    requires
        coherent(world),
        !(world(RequestView::ReadFile { path: joined(root, manifest_name()) })
            is Contents),
    ensures
        packages_or_empty(packages_in(world, root)) == Seq::<Seq<u8>>::empty(),
        first_match(packages_or_empty(packages_in(world, root)), pattern) is None,
{
    assert(packages_in(world, root) == expand(world, root));
}

/// Is the fragment the one byte `token`?
fn is_token(pattern: &[u8], token: u8) -> (r: bool)
    ensures
        r == (pattern@ == seq![token]),
{
    if pattern.len() == 1 && pattern[0] == token {
        assert(pattern@ =~= seq![token]);
        true
    } else {
        assert(seq![token].len() == 1 && seq![token][0] == token);
        false
    }
}

/// Does the fragment name the package directory?
pub fn names(package: &[u8], pattern: &[u8]) -> (r: bool)
    ensures
        r == fits(package@, pattern@),
{
    package.len() > 0 && is_text(package) && ends_with(package, pattern)
}

impl Mr {
    /// A repository with its root at `root`, seen from the directory
    /// `base`.
    pub fn new(root: Vec<u8>, base: Vec<u8>) -> (mr: Mr)
        ensures
            mr@ == (MrView { root: root@, base: base@ }),
    {
        Mr { root, base }
    }

    /// Starts the resolution of the fragment `pattern`. `previous` is the
    /// directory that the user left last, where it is known. Root and
    /// current directory may be any paths to those directories: the walk
    /// asks for their canonical forms.
    pub fn cwd(&self, pattern: &[u8], previous: Option<&[u8]>) -> (resolution: Resolution)
        ensures
            resolution@ == self@.start(
                pattern@,
                match previous {
                    Some(path) => Some(path@),
                    None => None,
                },
            ),
    {
        if is_token(pattern, '-' as u8) {
            match previous {
                Some(path) if is_text(path) => Resolution::Done { path: slice_to_vec(path) },
                _ => Resolution::Done { path: slice_to_vec(self.base.as_slice()) },
            }
        } else if is_token(pattern, '/' as u8) {
            Resolution::Done { path: slice_to_vec(self.root.as_slice()) }
        } else if is_token(pattern, '.' as u8) {
            Resolution::Done { path: slice_to_vec(self.base.as_slice()) }
        } else if !is_text(pattern) {
            Resolution::Failed { failure: Failure::InvalidInput }
        } else {
            Resolution::Gathering {
                root: slice_to_vec(self.root.as_slice()),
                base: slice_to_vec(self.base.as_slice()),
                pattern: slice_to_vec(pattern),
            }
        }
    }

    /// Starts the expansion of the workspace patterns of the repository.
    pub fn find_package_directories(&self) -> (expansion: Expansion)
        ensures
            expansion@ == (crate::expand::ExpansionView::Reading { root: self.root@ }),
    {
        Expansion::begin(self.root.as_slice())
    }

    /// The listing of the package directories that an expansion gave, one
    /// to a line; the empty listing where the expansion failed.
    pub fn list_package_directories(&self, found: &Result<Vec<Vec<u8>>, Failure>) -> (r: Vec<u8>)
        ensures
            r@ == listing_of(packages_or_empty(found_view(*found))),
    {
        let mut listing: Vec<u8> = Vec::new();
        if let Ok(packages) = found {
            let ghost all = paths_view(packages@);
            let mut i: usize = 0;
            while i < packages.len()
                invariant
                    i <= packages.len(),
                    all == paths_view(packages@),
                    listing@ == listing_of(all.take(i as int)),
                decreases packages.len() - i,
            {
                let package = packages[i].as_slice();
                assert(all.take(i + 1).drop_last() =~= all.take(i as int));
                assert(all.take(i + 1).last() == package@);
                if is_text(package) {
                    append(&mut listing, package);
                }
                listing.push(NEWLINE);
                assert(listing@ =~= listing_of(all.take(i as int)) + line_of(package@));
                i += 1;
            }
            assert(all.take(packages.len() as int) =~= all);
        }
        listing
    }

    /// The first package directory whose path ends with the fragment
    /// `pattern`.
    ///
    /// Directories whose path is no UTF-8 text or is empty are passed
    /// over, and an expansion that failed counts as one that found
    /// nothing. Fails with `InvalidInput` exactly where the fragment is no
    /// UTF-8 text, and with `FragmentNotFound` exactly where it is and
    /// names no directory.
    pub fn package_path(&self, found: &Result<Vec<Vec<u8>>, Failure>, pattern: &[u8]) -> (r: Result<
        Vec<u8>,
        Failure,
    >)
        ensures
            package_path_of(found_view(*found), pattern@) == match r {
                Ok(path) => Ok(path@),
                Err(failure) => Err(failure),
            },
    {
        if !is_text(pattern) {
            return Err(Failure::InvalidInput);
        }
        if let Ok(packages) = found {
            let ghost all = paths_view(packages@);
            let mut i: usize = 0;
            assert(all.skip(0) =~= all);
            while i < packages.len()
                invariant
                    i <= packages.len(),
                    all == paths_view(packages@),
                    valid_utf8(pattern@),
                    found_view(*found) == Ok::<Seq<Seq<u8>>, Failure>(all),
                    first_match(all, pattern@) == first_match(all.skip(i as int), pattern@),
                decreases packages.len() - i,
            {
                let package = packages[i].as_slice();
                assert(all.skip(i as int).len() > 0 && all.skip(i as int)[0] == package@);
                if names(package, pattern) {
                    assert(first_match(all.skip(i as int), pattern@) == Some(package@));
                    return Ok(slice_to_vec(package));
                }
                assert(all.skip(i as int).drop_first() =~= all.skip(i + 1));
                i += 1;
            }
            assert(all.skip(packages.len() as int) =~= Seq::empty());
        }
        Err(Failure::FragmentNotFound)
    }
}

impl Resolution {
    /// What the resolution wants to know next; `None` once it is over.
    pub fn request(&self) -> (r: Option<Request>)
        ensures
            self@.request() == match r {
                Some(request) => Some(request@),
                None => None,
            },
    {
        match self {
            Resolution::Gathering { root, .. } => Some(
                Request::Packages { root: slice_to_vec(root.as_slice()) },
            ),
            Resolution::Anchoring { root, .. } => Some(
                Request::Canonicalize { path: slice_to_vec(root.as_slice()) },
            ),
            Resolution::Placing { base, .. } => Some(
                Request::Canonicalize { path: slice_to_vec(base.as_slice()) },
            ),
            Resolution::Settling { path } => Some(
                Request::Canonicalize { path: slice_to_vec(path.as_slice()) },
            ),
            Resolution::Probing { dir, pattern, .. } => Some(
                Request::Exists { path: join(dir.as_slice(), pattern.as_slice()) },
            ),
            _ => None,
        }
    }

    /// Takes the reply to the request and moves on.
    pub fn advance(self, reply: Reply) -> (next: Resolution)
        ensures
            next@ == self@.advance(reply@),
    {
        match self {
            Resolution::Gathering { root, base, pattern } => {
                let found = match reply {
                    Reply::Packages { found } => found,
                    other => Err(other.failure()),
                };
                let mr = Mr { root, base };
                match mr.package_path(&found, pattern.as_slice()) {
                    Ok(path) => Resolution::Settling { path },
                    Err(Failure::FragmentNotFound) => Resolution::Anchoring {
                        root: mr.root,
                        base: mr.base,
                        pattern,
                    },
                    Err(failure) => Resolution::Failed { failure },
                }
            },
            Resolution::Anchoring { root, base, pattern } => match reply {
                Reply::Canonical { path } => Resolution::Placing { root: path, base, pattern },
                other => Resolution::Failed { failure: other.failure() },
            },
            Resolution::Placing { root, base, pattern } => match reply {
                Reply::Canonical { path } => Resolution::Probing { root, dir: path, pattern },
                other => Resolution::Failed { failure: other.failure() },
            },
            Resolution::Settling { path } => match reply {
                Reply::Canonical { path } => Resolution::Done { path },
                other => Resolution::Failed { failure: other.failure() },
            },
            Resolution::Probing { root, dir, pattern } => match reply {
                Reply::Exists { present } => {
                    if present {
                        Resolution::Settling { path: join(dir.as_slice(), pattern.as_slice()) }
                    } else if same_bytes(dir.as_slice(), root.as_slice()) {
                        Resolution::Failed { failure: Failure::FragmentNotFound }
                    } else {
                        match parent(dir.as_slice()) {
                            Some(up) => Resolution::Probing { root, dir: up, pattern },
                            None => Resolution::Failed { failure: Failure::FragmentNotFound },
                        }
                    }
                },
                other => Resolution::Failed { failure: other.failure() },
            },
            other => other,
        }
    }

    /// What the resolution came to; `None` while it goes on.
    pub fn outcome(self) -> (r: Option<Result<Vec<u8>, Failure>>)
        ensures
            self@.outcome() == match r {
                Some(Ok(path)) => Some(Ok(path@)),
                Some(Err(failure)) => Some(Err(failure)),
                None => None,
            },
    {
        match self {
            Resolution::Done { path } => Some(Ok(path)),
            Resolution::Failed { failure } => Some(Err(failure)),
            _ => None,
        }
    }
}

} // verus!
