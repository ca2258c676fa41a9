//! Finding the repository root: the nearest directory, from the start
//! upwards, that holds the lockfile.
//!
//! The start may be any path: relative, with `.` or `..` in it, or
//! reached through links. The search first asks for its canonical form and
//! goes up from there, so that the directory above is always the one the
//! filesystem has above. The directory found is handed out in canonical
//! form too.

use vstd::prelude::*;
use vstd::slice::slice_to_vec;
use crate::failure::Failure;
use crate::path::{
    ancestor, is_above, is_rooted, lemma_ancestor_is_above, lemma_ancestors_differ,
    lemma_parent_is_shorter, parent, parent_of, same_bytes,
};
use crate::protocol::{canonical_in, paths_view, Reply, ReplyView, Request, RequestView, World};

verus! {

/// Name of the lockfile whose presence marks the repository root, as
/// bytes: `yarn.lock`.
pub open spec fn marker_name() -> Seq<u8> {
    seq![
        'y' as u8, 'a' as u8, 'r' as u8, 'n' as u8, '.' as u8, 'l' as u8, 'o' as u8, 'c' as u8,
        'k' as u8,
    ]
}

/// One of the names is that of the lockfile.
pub open spec fn holds_marker(names: Seq<Seq<u8>>) -> bool {
    exists|i: int| 0 <= i < names.len() && names[i] == marker_name()
}

/// A search for the repository root.
#[derive(Debug, PartialEq, Eq)]
pub enum RootSearch {
    /// The canonical form of the start `dir` is wanted.
    Starting { dir: Vec<u8> },
    /// The entries of `dir`, a directory in canonical form, are wanted.
    Listing { dir: Vec<u8> },
    /// `dir` holds the lockfile; its canonical form is wanted.
    Settling { dir: Vec<u8> },
    /// The search is over: this is the root.
    Found { root: Vec<u8> },
    /// The search is over and found no root.
    Failed { failure: Failure },
}

/// A `RootSearch` as a mathematical value.
pub enum RootSearchView {
    Starting { dir: Seq<u8> },
    Listing { dir: Seq<u8> },
    Settling { dir: Seq<u8> },
    Found { root: Seq<u8> },
    Failed { failure: Failure },
}

impl View for RootSearch {
    type V = RootSearchView;

    open spec fn view(&self) -> RootSearchView {
        match self {
            RootSearch::Starting { dir } => RootSearchView::Starting { dir: dir@ },
            RootSearch::Listing { dir } => RootSearchView::Listing { dir: dir@ },
            RootSearch::Settling { dir } => RootSearchView::Settling { dir: dir@ },
            RootSearch::Found { root } => RootSearchView::Found { root: root@ },
            RootSearch::Failed { failure } => RootSearchView::Failed { failure: *failure },
        }
    }
}

impl RootSearchView {
    /// What the search wants to know next; `None` once it is over.
    pub open spec fn request(self) -> Option<RequestView> {
        match self {
            RootSearchView::Starting { dir } => Some(RequestView::Canonicalize { path: dir }),
            RootSearchView::Listing { dir } => Some(RequestView::ListDir { dir }),
            RootSearchView::Settling { dir } => Some(RequestView::Canonicalize { path: dir }),
            _ => None,
        }
    }

    /// The search after `reply` to its request.
    ///
    /// The canonical form of the start is listed first. A listing with the
    /// lockfile settles on the directory listed, whose canonical form is
    /// the root; one without it sends the search to the parent, or ends it
    /// with `RootNotFound` where there is none. A reply that does not answer the request ends
    /// the search with the failure it stands for. A search that is over
    /// stays as it is.
    pub open spec fn advance(self, reply: ReplyView) -> RootSearchView {
        match self {
            RootSearchView::Starting { dir } => match reply {
                ReplyView::Canonical { path } => RootSearchView::Listing { dir: path },
                _ => RootSearchView::Failed { failure: reply.failure() },
            },
            RootSearchView::Listing { dir } => match reply {
                ReplyView::Entries { names } => if holds_marker(names) {
                    RootSearchView::Settling { dir }
                } else {
                    match parent_of(dir) {
                        Some(up) => RootSearchView::Listing { dir: up },
                        None => RootSearchView::Failed { failure: Failure::RootNotFound },
                    }
                },
                _ => RootSearchView::Failed { failure: reply.failure() },
            },
            RootSearchView::Settling { dir } => match reply {
                ReplyView::Canonical { path } => RootSearchView::Found { root: path },
                _ => RootSearchView::Failed { failure: reply.failure() },
            },
            _ => self,
        }
    }

    /// What the search came to; `None` while it goes on.
    pub open spec fn outcome(self) -> Option<Result<Seq<u8>, Failure>> {
        match self {
            RootSearchView::Found { root } => Some(Ok(root)),
            RootSearchView::Failed { failure } => Some(Err(failure)),
            _ => None,
        }
    }

    /// An upper bound on the replies that the search can still take, once
    /// it has left its start.
    pub open spec fn budget(self) -> nat {
        match self {
            RootSearchView::Listing { dir } => dir.len() + 2,
            RootSearchView::Settling { .. } => 1,
            _ => 0,
        }
    }
}

/// The search after `steps` rounds of asking `world` and taking its answer.
pub open spec fn run(world: World, search: RootSearchView, steps: nat) -> RootSearchView
    decreases steps,
{
    match search.request() {
        Some(request) if steps > 0 => run(
            world,
            search.advance(world(request)),
            (steps - 1) as nat,
        ),
        _ => search,
    }
}

/// The listing of `dir` in `world` lacks the lockfile.
pub open spec fn unmarked(world: World, dir: Seq<u8>) -> bool {
    world(RequestView::ListDir { dir }) matches ReplyView::Entries { names } && !holds_marker(names)
}

/// The listing of `dir` in `world` has the lockfile.
pub open spec fn marked(world: World, dir: Seq<u8>) -> bool {
    world(RequestView::ListDir { dir }) matches ReplyView::Entries { names } && holds_marker(names)
}

/// The nearest directory, from the canonical directory `dir` upwards,
/// whose listing in `world` has the lockfile.
pub open spec fn climb(world: World, dir: Seq<u8>) -> Result<Seq<u8>, Failure>
    decreases dir.len(),
{
    if marked(world, dir) {
        Ok(dir)
    } else if unmarked(world, dir) {
        match parent_of(dir) {
            Some(up) => {
                proof {
                    lemma_parent_is_shorter(dir);
                }
                climb(world, up)
            },
            None => Err(Failure::RootNotFound),
        }
    } else {
        Err(world(RequestView::ListDir { dir }).failure())
    }
}

/// The repository root seen from `start` in `world`: the canonical form
/// of the nearest directory, from the canonical form of `start` upwards,
/// whose listing has the lockfile.
pub open spec fn locate_root(world: World, start: Seq<u8>) -> Result<Seq<u8>, Failure> {
    match canonical_in(world, start) {
        Ok(dir) => match climb(world, dir) {
            Ok(found) => canonical_in(world, found),
            Err(failure) => Err(failure),
        },
        Err(failure) => Err(failure),
    }
}

/// The number of rounds after which the search from `start` in `world` is
/// over: one for the canonical form of the start, one for each directory
/// that can be listed on the way up, and one for the canonical form of the
/// directory found.
pub open spec fn rounds(world: World, start: Seq<u8>) -> nat {
    match canonical_in(world, start) {
        Ok(dir) => dir.len() + 3,
        Err(_) => 1,
    }
}

/// A search that has left its start is over exactly where it asks
/// nothing, and every reply brings it nearer to its end: from the
/// directory `dir` it is over after at most `dir.len() + 2` replies,
/// whatever they are.
pub proof fn lemma_advance_spends_budget(search: RootSearchView, reply: ReplyView)
    ensures
        search.request() is None <==> search.outcome() is Some,
        search is Listing || search is Settling ==> search.advance(reply).budget()
            < search.budget(),
        search is Starting ==> !(search.advance(reply) is Starting),
{
    if let RootSearchView::Listing { dir } = search {
        lemma_parent_is_shorter(dir);
    }
}

/// What a climb from `dir` comes to in `world`, the directory found
/// taken in canonical form.
pub open spec fn settled_climb(world: World, dir: Seq<u8>) -> Result<Seq<u8>, Failure> {
    match climb(world, dir) {
        Ok(found) => canonical_in(world, found),
        Err(failure) => Err(failure),
    }
}

/// A climb that is given a round for each byte of the directory, and two
/// more, ends with what `climb` says, in canonical form.
pub proof fn lemma_run_climbs(world: World, dir: Seq<u8>, steps: nat)
    requires
        steps >= dir.len() + 2,
    ensures
        run(world, RootSearchView::Listing { dir }, steps).outcome() == Some(
            settled_climb(world, dir),
        ),
    decreases dir.len(),
{
    let search = RootSearchView::Listing { dir };
    let next = search.advance(world(RequestView::ListDir { dir }));
    assert(run(world, search, steps) == run(world, next, (steps - 1) as nat));
    match next {
        RootSearchView::Listing { dir: up } => {
            lemma_parent_is_shorter(dir);
            lemma_run_climbs(world, up, (steps - 1) as nat);
        },
        RootSearchView::Settling { dir: found } => {
            let last = next.advance(world(RequestView::Canonicalize { path: found }));
            assert(run(world, next, (steps - 1) as nat) == run(world, last, (steps - 2) as nat));
        },
        _ => {},
    }
}

/// A search that is given enough rounds ends with what `locate_root` says.
pub proof fn lemma_run_locates_root(world: World, start: Seq<u8>, steps: nat)
    requires
        steps >= rounds(world, start),
    ensures
        run(world, RootSearchView::Starting { dir: start }, steps).outcome() == Some(
            locate_root(world, start),
        ),
{
    let search = RootSearchView::Starting { dir: start };
    let next = search.advance(world(RequestView::Canonicalize { path: start }));
    assert(run(world, search, steps) == run(world, next, (steps - 1) as nat));
    if let RootSearchView::Listing { dir } = next {
        lemma_run_climbs(world, dir, (steps - 1) as nat);
    }
}

/// Where the nearest directory with the lockfile is `levels` steps above
/// the directory `dir`, the climb ends there.
pub proof fn lemma_climb_ends_at_nearest_marked(
    world: World,
    dir: Seq<u8>,
    levels: nat,
    root: Seq<u8>,
)
    requires
        ancestor(dir, levels) == Some(root),
        forall|i: nat| i < levels ==> unmarked(world, #[trigger] ancestor(dir, i).unwrap()),
        marked(world, root),
    ensures
        climb(world, dir) == Ok::<Seq<u8>, Failure>(root),
    decreases levels,
{
    if levels > 0 {
        assert(unmarked(world, ancestor(dir, 0).unwrap()));
        let up = parent_of(dir).unwrap();
        assert forall|i: nat| i < levels - 1 implies unmarked(
            world,
            #[trigger] ancestor(up, i).unwrap(),
        ) by {
            assert(ancestor(dir, i + 1) == ancestor(up, i));
        }
        lemma_climb_ends_at_nearest_marked(world, up, (levels - 1) as nat, root);
    }
}

/// Where the start has the canonical form `canonical`, and the nearest
/// directory with the lockfile is `found`, `levels` steps above that, the
/// search returns the canonical form of `found`.
///
/// In particular this holds where exactly one directory on the way up
/// holds the lockfile, and where several do: the nearest wins.
pub proof fn lemma_root_is_nearest_marked_ancestor(
    world: World,
    start: Seq<u8>,
    canonical: Seq<u8>,
    levels: nat,
    found: Seq<u8>,
)
    requires
        canonical_in(world, start) == Ok::<Seq<u8>, Failure>(canonical),
        ancestor(canonical, levels) == Some(found),
        forall|i: nat| i < levels ==> unmarked(world, #[trigger] ancestor(canonical, i).unwrap()),
        marked(world, found),
    ensures
        locate_root(world, start) == canonical_in(world, found),
        forall|steps: nat|
            steps >= canonical.len() + 3 ==> #[trigger] run(
                world,
                RootSearchView::Starting { dir: start },
                steps,
            ).outcome() == Some(canonical_in(world, found)),
{
    lemma_climb_ends_at_nearest_marked(world, canonical, levels, found);
    assert forall|steps: nat| steps >= canonical.len() + 3 implies #[trigger] run(
        world,
        RootSearchView::Starting { dir: start },
        steps,
    ).outcome() == Some(canonical_in(world, found)) by {
        lemma_run_locates_root(world, start, steps);
    }
}

/// Where no directory above the directory `dir`, nor `dir` itself, holds
/// the lockfile, the climb ends with `RootNotFound`.
pub proof fn lemma_climb_without_marker(world: World, dir: Seq<u8>)
    requires
        forall|i: nat|
            ancestor(dir, i) is Some ==> unmarked(world, #[trigger] ancestor(dir, i).unwrap()),
    ensures
        climb(world, dir) == Err::<Seq<u8>, Failure>(Failure::RootNotFound),
    decreases dir.len(),
{
    assert(unmarked(world, ancestor(dir, 0).unwrap()));
    if let Some(up) = parent_of(dir) {
        lemma_parent_is_shorter(dir);
        assert forall|i: nat| ancestor(up, i) is Some implies unmarked(
            world,
            #[trigger] ancestor(up, i).unwrap(),
        ) by {
            assert(ancestor(dir, i + 1) == ancestor(up, i));
            assert(unmarked(world, ancestor(dir, i + 1).unwrap()));
        }
        lemma_climb_without_marker(world, up);
    }
}

/// Where no directory from the canonical form of the start up to the
/// filesystem root holds the lockfile, the search fails with
/// `RootNotFound`.
pub proof fn lemma_no_marker_no_root(world: World, start: Seq<u8>, canonical: Seq<u8>)
    requires
        canonical_in(world, start) == Ok::<Seq<u8>, Failure>(canonical),
        forall|i: nat|
            ancestor(canonical, i) is Some ==> unmarked(
                world,
                #[trigger] ancestor(canonical, i).unwrap(),
            ),
    ensures
        locate_root(world, start) == Err::<Seq<u8>, Failure>(Failure::RootNotFound),
        forall|steps: nat|
            steps >= canonical.len() + 3 ==> #[trigger] run(
                world,
                RootSearchView::Starting { dir: start },
                steps,
            ).outcome() == Some(Err::<Seq<u8>, Failure>(Failure::RootNotFound)),
{
    lemma_climb_without_marker(world, canonical);
    assert forall|steps: nat| steps >= canonical.len() + 3 implies #[trigger] run(
        world,
        RootSearchView::Starting { dir: start },
        steps,
    ).outcome() == Some(Err::<Seq<u8>, Failure>(Failure::RootNotFound)) by {
        lemma_run_locates_root(world, start, steps);
    }
}

/// A listing that fails on the way up is handed on, not passed over:
/// where the directories below `levels` lack the lockfile and the listing
/// of the one at `levels` does not come, the search fails with the
/// failure that the reply stands for.
pub proof fn lemma_failed_listing_is_handed_on(
    world: World,
    start: Seq<u8>,
    canonical: Seq<u8>,
    levels: nat,
)
    requires
        canonical_in(world, start) == Ok::<Seq<u8>, Failure>(canonical),
        ancestor(canonical, levels) is Some,
        forall|i: nat| i < levels ==> unmarked(world, #[trigger] ancestor(canonical, i).unwrap()),
        !(world(RequestView::ListDir { dir: ancestor(canonical, levels).unwrap() })
            is Entries),
    ensures
        locate_root(world, start) == Err::<Seq<u8>, Failure>(
            world(RequestView::ListDir { dir: ancestor(canonical, levels).unwrap() }).failure(),
        ),
{
    lemma_climb_hands_on_failure(world, canonical, levels);
}

/// The climb fails where a listing on its way does not come.
pub proof fn lemma_climb_hands_on_failure(world: World, dir: Seq<u8>, levels: nat)
    requires
        ancestor(dir, levels) is Some,
        forall|i: nat| i < levels ==> unmarked(world, #[trigger] ancestor(dir, i).unwrap()),
        !(world(RequestView::ListDir { dir: ancestor(dir, levels).unwrap() }) is Entries),
    ensures
        climb(world, dir) == Err::<Seq<u8>, Failure>(
            world(RequestView::ListDir { dir: ancestor(dir, levels).unwrap() }).failure(),
        ),
    decreases levels,
{
    if levels > 0 {
        assert(unmarked(world, ancestor(dir, 0).unwrap()));
        let up = parent_of(dir).unwrap();
        assert forall|i: nat| i < levels - 1 implies unmarked(
            world,
            #[trigger] ancestor(up, i).unwrap(),
        ) by {
            assert(ancestor(dir, i + 1) == ancestor(up, i));
        }
        lemma_climb_hands_on_failure(world, up, (levels - 1) as nat);
    }
}

/// What a climb finds is the directory it started from or one above it,
/// its listing has the lockfile, and no directory below it on the way
/// has.
pub proof fn lemma_climb_finds_an_ancestor(world: World, dir: Seq<u8>) -> (levels: nat)
    requires
        climb(world, dir) is Ok,
    ensures
        ancestor(dir, levels) == Some(climb(world, dir).unwrap()),
        marked(world, climb(world, dir).unwrap()),
        forall|i: nat| i < levels ==> unmarked(world, #[trigger] ancestor(dir, i).unwrap()),
    decreases dir.len(),
{
    if marked(world, dir) {
        0
    } else {
        let up = parent_of(dir).unwrap();
        lemma_parent_is_shorter(dir);
        let above = lemma_climb_finds_an_ancestor(world, up);
        assert forall|i: nat| i < above + 1 implies unmarked(
            world,
            #[trigger] ancestor(dir, i).unwrap(),
        ) by {
            if i > 0 {
                assert(ancestor(dir, i) == ancestor(up, (i - 1) as nat));
                assert(unmarked(world, ancestor(up, (i - 1) as nat).unwrap()));
            }
        }
        above + 1
    }
}

/// A root that the search returns is the canonical form of a directory
/// `found` that is the canonical start or lies above it, and whose
/// listing has the lockfile. Where the canonical start is rooted, `found`
/// is rooted and the canonical start begins with it.
pub proof fn lemma_root_is_above_the_start(world: World, start: Seq<u8>) -> (r: (nat, Seq<u8>))
    requires
        locate_root(world, start) is Ok,
    ensures
        ancestor(canonical_in(world, start).unwrap(), r.0) == Some(r.1),
        marked(world, r.1),
        locate_root(world, start) == canonical_in(world, r.1),
        is_rooted(canonical_in(world, start).unwrap()) ==> is_rooted(r.1) && is_above(
            r.1,
            canonical_in(world, start).unwrap(),
        ),
{
    let canonical = canonical_in(world, start).unwrap();
    let levels = lemma_climb_finds_an_ancestor(world, canonical);
    if is_rooted(canonical) {
        lemma_ancestor_is_above(canonical, levels);
    }
    (levels, climb(world, canonical).unwrap())
}

/// No directory is listed twice: the directories at two different heights
/// above the canonical start differ.
pub proof fn lemma_no_directory_is_listed_twice(canonical: Seq<u8>, lower: nat, higher: nat)
    requires
        lower < higher,
        ancestor(canonical, higher) is Some,
    ensures
        ancestor(canonical, lower) is Some,
        ancestor(canonical, lower) != ancestor(canonical, higher),
{
    lemma_ancestors_differ(canonical, lower, higher);
}

/// Name of the lockfile.
pub fn marker_file_name() -> (r: Vec<u8>)
    ensures
        r@ == marker_name(),
{
    let r: Vec<u8> = vec![
        'y' as u8, 'a' as u8, 'r' as u8, 'n' as u8, '.' as u8, 'l' as u8, 'o' as u8, 'c' as u8,
        'k' as u8,
    ];
    assert(r@ =~= marker_name());
    r
}

/// Is one of the names that of the lockfile?
pub fn has_marker(names: &Vec<Vec<u8>>) -> (r: bool)
    ensures
        r == holds_marker(paths_view(names@)),
{
    let marker = marker_file_name();
    let mut i: usize = 0;
    while i < names.len()
        invariant
            i <= names.len(),
            marker@ == marker_name(),
            forall|j: int| 0 <= j < i ==> paths_view(names@)[j] != marker_name(),
        decreases names.len() - i,
    {
        if same_bytes(names[i].as_slice(), marker.as_slice()) {
            assert(paths_view(names@)[i as int] == marker_name());
            return true;
        }
        i += 1;
    }
    false
}

/// Starts the search for the repository root from `current`, which may be
/// any path to a directory.
pub fn find_root_dir(current: &[u8]) -> (search: RootSearch)
    ensures
        search@ == (RootSearchView::Starting { dir: current@ }),
{
    RootSearch::Starting { dir: slice_to_vec(current) }
}

impl RootSearch {
    /// What the search wants to know next; `None` once it is over.
    pub fn request(&self) -> (r: Option<Request>)
        ensures
            self@.request() == match r {
                Some(request) => Some(request@),
                None => None,
            },
    {
        match self {
            RootSearch::Starting { dir } => Some(
                Request::Canonicalize { path: slice_to_vec(dir.as_slice()) },
            ),
            RootSearch::Listing { dir } => Some(
                Request::ListDir { dir: slice_to_vec(dir.as_slice()) },
            ),
            RootSearch::Settling { dir } => Some(
                Request::Canonicalize { path: slice_to_vec(dir.as_slice()) },
            ),
            _ => None,
        }
    }

    /// Takes the reply to the request and moves on.
    pub fn advance(self, reply: Reply) -> (next: RootSearch)
        ensures
            next@ == self@.advance(reply@),
    {
        match self {
            RootSearch::Starting { dir } => match reply {
                Reply::Canonical { path } => RootSearch::Listing { dir: path },
                other => RootSearch::Failed { failure: other.failure() },
            },
            RootSearch::Listing { dir } => match reply {
                Reply::Entries { names } => {
                    if has_marker(&names) {
                        RootSearch::Settling { dir }
                    } else {
                        match parent(dir.as_slice()) {
                            Some(up) => RootSearch::Listing { dir: up },
                            None => RootSearch::Failed { failure: Failure::RootNotFound },
                        }
                    }
                },
                other => RootSearch::Failed { failure: other.failure() },
            },
            RootSearch::Settling { dir } => match reply {
                Reply::Canonical { path } => RootSearch::Found { root: path },
                other => RootSearch::Failed { failure: other.failure() },
            },
            other => other,
        }
    }

    /// What the search came to; `None` while it goes on.
    pub fn outcome(self) -> (r: Option<Result<Vec<u8>, Failure>>)
        ensures
            self@.outcome() == match r {
                Some(Ok(root)) => Some(Ok(root@)),
                Some(Err(failure)) => Some(Err(failure)),
                None => None,
            },
    {
        match self {
            RootSearch::Found { root } => Some(Ok(root)),
            RootSearch::Failed { failure } => Some(Err(failure)),
            _ => None,
        }
    }
}

} // verus!
