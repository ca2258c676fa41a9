use mr::command::{command, listing_command};
use mr::expand::Expansion;
use mr::failure::{Failure, IoKind};
use mr::protocol::{Reply, Request};
use mr::resolve::{Mr, Resolution};
use mr::root::{find_root_dir, RootSearch};

fn bytes(text: &str) -> Vec<u8> {
    text.as_bytes().to_vec()
}

/// A filesystem made up for a test, with a record of what was asked of it.
struct Disk {
    listings: Vec<(Vec<u8>, Vec<Vec<u8>>)>,
    links: Vec<(Vec<u8>, Vec<u8>)>,
    present: Vec<Vec<u8>>,
    files: Vec<(Vec<u8>, Vec<u8>)>,
    globs: Vec<(String, Reply)>,
    denied: Vec<Vec<u8>>,
    asked: Vec<Request>,
}

fn empty_disk() -> Disk {
    Disk {
        listings: Vec::new(),
        links: Vec::new(),
        present: Vec::new(),
        files: Vec::new(),
        globs: Vec::new(),
        denied: Vec::new(),
        asked: Vec::new(),
    }
}

fn dir(disk: &mut Disk, path: &str, names: &[&str]) {
    disk.listings.push((bytes(path), names.iter().map(|name| bytes(name)).collect()));
    disk.present.push(bytes(path));
    disk.links.push((bytes(path), bytes(path)));
}

fn link(disk: &mut Disk, path: &str, target: &str) {
    disk.present.push(bytes(path));
    disk.links.retain(|(from, _)| from != &bytes(path));
    disk.links.push((bytes(path), bytes(target)));
}

fn file(disk: &mut Disk, path: &str, contents: &str) {
    disk.files.push((bytes(path), bytes(contents)));
    disk.present.push(bytes(path));
}

fn glob(disk: &mut Disk, pattern: &str, matches: &[&str]) {
    let paths = matches.iter().map(|path| bytes(path)).collect();
    disk.globs.push((pattern.to_string(), Reply::Matches { paths }));
}

fn copy_of(reply: &Reply) -> Reply {
    match reply {
        Reply::Matches { paths } => Reply::Matches { paths: paths.clone() },
        Reply::PatternRejected => Reply::PatternRejected,
        Reply::Failed { kind } => Reply::Failed { kind: *kind },
        _ => Reply::Failed { kind: IoKind::Other },
    }
}

fn missing() -> Reply {
    Reply::Failed { kind: IoKind::NotFound }
}

fn answer(disk: &mut Disk, request: Request) -> Reply {
    let reply = match &request {
        Request::ListDir { dir } if disk.denied.contains(dir) => {
            Reply::Failed { kind: IoKind::PermissionDenied }
        }
        Request::ListDir { dir } => match disk.listings.iter().find(|(path, _)| path == dir) {
            Some((_, names)) => Reply::Entries { names: names.clone() },
            None => missing(),
        },
        Request::Canonicalize { path } => match disk.links.iter().find(|(from, _)| from == path) {
            Some((_, target)) => Reply::Canonical { path: target.clone() },
            None => missing(),
        },
        Request::Exists { path } => Reply::Exists { present: disk.present.contains(path) },
        Request::ReadFile { path } => match disk.files.iter().find(|(at, _)| at == path) {
            Some((_, contents)) => Reply::Contents { bytes: contents.clone() },
            None => missing(),
        },
        Request::Glob { pattern } => match disk.globs.iter().find(|(known, _)| known == pattern) {
            Some((_, reply)) => copy_of(reply),
            None => Reply::Matches { paths: Vec::new() },
        },
        Request::Packages { root } => Reply::Packages { found: expand(disk, root) },
    };
    disk.asked.push(request);
    reply
}

fn locate(disk: &mut Disk, start: &str) -> Result<Vec<u8>, Failure> {
    let mut search = find_root_dir(start.as_bytes());
    while let Some(request) = search.request() {
        let reply = answer(disk, request);
        search = search.advance(reply);
    }
    search.outcome().unwrap()
}

fn expand(disk: &mut Disk, root: &[u8]) -> Result<Vec<Vec<u8>>, Failure> {
    let mut expansion = Expansion::begin(root);
    while let Some(request) = expansion.request() {
        let reply = answer(disk, request);
        expansion = expansion.advance(reply);
    }
    expansion.outcome().unwrap()
}

fn resolve(disk: &mut Disk, mr: &Mr, fragment: &[u8], previous: Option<&[u8]>) -> Result<Vec<u8>, Failure> {
    let mut resolution = mr.cwd(fragment, previous);
    while let Some(request) = resolution.request() {
        let reply = answer(disk, request);
        resolution = resolution.advance(reply);
    }
    resolution.outcome().unwrap()
}

fn listed(disk: &Disk) -> Vec<Vec<u8>> {
    let mut dirs = Vec::new();
    for request in &disk.asked {
        if let Request::ListDir { dir } = request {
            dirs.push(dir.clone());
        }
    }
    dirs
}

fn probed(disk: &Disk) -> Vec<Vec<u8>> {
    let mut paths = Vec::new();
    for request in &disk.asked {
        if let Request::Exists { path } = request {
            paths.push(path.clone());
        }
    }
    paths
}

fn globbed(disk: &Disk) -> Vec<String> {
    let mut patterns = Vec::new();
    for request in &disk.asked {
        if let Request::Glob { pattern } = request {
            patterns.push(pattern.clone());
        }
    }
    patterns
}

/// `/repo` with the lockfile, a manifest that declares `packages/*`, and
/// the packages `api` and `web`.
fn repo() -> Disk {
    let mut disk = empty_disk();
    dir(&mut disk, "/", &["repo", "home"]);
    dir(&mut disk, "/repo", &["package.json", "packages", "yarn.lock"]);
    dir(&mut disk, "/repo/packages", &["api", "web"]);
    dir(&mut disk, "/repo/packages/api", &["src"]);
    dir(&mut disk, "/repo/packages/api/src", &[]);
    dir(&mut disk, "/repo/packages/web", &[]);
    file(&mut disk, "/repo/package.json", r#"{"workspaces": {"packages": ["packages/*"]}}"#);
    glob(&mut disk, "/repo/packages/*", &["/repo/packages/api", "/repo/packages/web"]);
    disk
}

fn repo_mr(base: &str) -> Mr {
    Mr::new(bytes("/repo"), bytes(base))
}

#[test]
fn root_is_the_start_where_it_holds_the_lockfile() {
    let mut disk = repo();
    assert_eq!(locate(&mut disk, "/repo"), Ok(bytes("/repo")));
    assert_eq!(listed(&disk), vec![bytes("/repo")]);
}

#[test]
fn root_is_found_from_any_directory_below() {
    for start in ["/repo/packages", "/repo/packages/api", "/repo/packages/api/src", "/repo/packages/web"] {
        let mut disk = repo();
        assert_eq!(locate(&mut disk, start), Ok(bytes("/repo")));
    }
}

#[test]
fn root_search_lists_one_directory_for_each_level() {
    let mut disk = repo();
    assert_eq!(locate(&mut disk, "/repo/packages/api/src"), Ok(bytes("/repo")));
    assert_eq!(
        listed(&disk),
        vec![bytes("/repo/packages/api/src"), bytes("/repo/packages/api"), bytes("/repo/packages"), bytes("/repo")]
    );
}

#[test]
fn root_search_asks_for_the_canonical_start_first() {
    let search = find_root_dir(b"../api");
    assert_eq!(search.request(), Some(Request::Canonicalize { path: bytes("../api") }));
    assert_eq!(search.outcome(), None);
    let search = find_root_dir(b"../api").advance(Reply::Canonical { path: bytes("/repo/packages/api") });
    assert_eq!(search.request(), Some(Request::ListDir { dir: bytes("/repo/packages/api") }));
}

#[test]
fn root_search_goes_up_from_where_a_link_leads() {
    let mut disk = empty_disk();
    dir(&mut disk, "/", &["mnt", "work", "yarn.lock.bak"]);
    dir(&mut disk, "/mnt", &["disk"]);
    dir(&mut disk, "/mnt/disk", &["work"]);
    dir(&mut disk, "/mnt/disk/work", &["yarn.lock", "pkg"]);
    dir(&mut disk, "/mnt/disk/work/pkg", &[]);
    link(&mut disk, "/work/pkg", "/mnt/disk/work/pkg");
    assert_eq!(locate(&mut disk, "/work/pkg"), Ok(bytes("/mnt/disk/work")));
    assert_eq!(listed(&disk), vec![bytes("/mnt/disk/work/pkg"), bytes("/mnt/disk/work")]);
}

#[test]
fn root_search_from_a_link_to_a_directory_elsewhere() {
    let mut disk = repo();
    dir(&mut disk, "/home", &["me"]);
    dir(&mut disk, "/home/me", &["yarn.lock", "api"]);
    link(&mut disk, "/home/me/api", "/repo/packages/api");
    assert_eq!(locate(&mut disk, "/home/me/api"), Ok(bytes("/repo")));
    assert!(!listed(&disk).contains(&bytes("/home/me")));
}

#[test]
fn root_search_from_a_relative_start() {
    let mut disk = repo();
    link(&mut disk, ".", "/repo/packages/api");
    assert_eq!(locate(&mut disk, "."), Ok(bytes("/repo")));
    assert_eq!(listed(&disk), vec![bytes("/repo/packages/api"), bytes("/repo/packages"), bytes("/repo")]);
}

/// `/repo/a` holds the lockfile; the start `/repo/a/..` is `/repo`.
fn dotted(root_entries: &[&str], repo_entries: &[&str]) -> Disk {
    let mut disk = empty_disk();
    dir(&mut disk, "/", root_entries);
    dir(&mut disk, "/repo", repo_entries);
    dir(&mut disk, "/repo/a", &["yarn.lock", "b"]);
    dir(&mut disk, "/repo/a/b", &["yarn.lock"]);
    link(&mut disk, "/repo/a/..", "/repo");
    link(&mut disk, "/repo/a/b/..", "/repo/a");
    disk
}

#[test]
fn dotted_start_finds_the_one_lockfile_above_it() {
    let mut disk = dotted(&["repo", "yarn.lock"], &["a"]);
    assert_eq!(locate(&mut disk, "/repo/a/.."), Ok(bytes("/")));
    assert_eq!(listed(&disk), vec![bytes("/repo"), bytes("/")]);
}

#[test]
fn dotted_start_finds_nothing_where_only_a_child_has_the_lockfile() {
    let mut disk = dotted(&["repo"], &["a"]);
    assert_eq!(locate(&mut disk, "/repo/a/.."), Err(Failure::RootNotFound));
    assert_eq!(listed(&disk), vec![bytes("/repo"), bytes("/")]);
}

#[test]
fn dotted_start_takes_the_nearest_lockfile_above_it() {
    let mut disk = dotted(&["repo", "yarn.lock"], &["a", "yarn.lock"]);
    disk.listings[2] = (bytes("/repo/a"), vec![bytes("b")]);
    assert_eq!(locate(&mut disk, "/repo/a/b/.."), Ok(bytes("/repo")));
    assert_eq!(listed(&disk), vec![bytes("/repo/a"), bytes("/repo")]);
}

#[test]
fn dotted_start_hands_on_a_failed_listing_above_it() {
    let mut disk = dotted(&["repo"], &["a"]);
    disk.denied.push(bytes("/"));
    assert_eq!(locate(&mut disk, "/repo/a/.."), Err(Failure::Io(IoKind::PermissionDenied)));
    assert_eq!(listed(&disk), vec![bytes("/repo"), bytes("/")]);
}

#[test]
fn root_found_is_above_the_canonical_start() {
    let mut disk = dotted(&["repo", "yarn.lock"], &["a", "yarn.lock"]);
    let root = locate(&mut disk, "/repo/a/..").unwrap();
    assert_eq!(root, bytes("/repo"));
    assert!(bytes("/repo").starts_with(&root));
    let mut disk = dotted(&["repo", "yarn.lock"], &["a", "yarn.lock"]);
    let root = locate(&mut disk, "/repo/a/b").unwrap();
    assert_eq!(root, bytes("/repo/a/b"));
}

#[test]
fn root_search_lists_no_directory_twice() {
    for start in ["/repo/a/..", "/repo/a/b/..", "/repo/a/b", "/"] {
        let mut disk = dotted(&["repo"], &["a"]);
        disk.listings[2] = (bytes("/repo/a"), vec![bytes("b")]);
        disk.listings[3] = (bytes("/repo/a/b"), vec![]);
        assert_eq!(locate(&mut disk, start), Err(Failure::RootNotFound));
        let dirs = listed(&disk);
        for (i, dir) in dirs.iter().enumerate() {
            assert!(!dirs[..i].contains(dir));
        }
    }
}

#[test]
fn root_is_the_nearest_directory_with_the_lockfile() {
    let mut disk = repo();
    disk.listings[3] = (bytes("/repo/packages/api"), vec![bytes("yarn.lock"), bytes("src")]);
    assert_eq!(locate(&mut disk, "/repo/packages/api/src"), Ok(bytes("/repo/packages/api")));
    assert_eq!(listed(&disk), vec![bytes("/repo/packages/api/src"), bytes("/repo/packages/api")]);
}

#[test]
fn root_can_be_the_filesystem_root() {
    let mut disk = empty_disk();
    dir(&mut disk, "/", &["yarn.lock", "home"]);
    dir(&mut disk, "/home", &["me"]);
    dir(&mut disk, "/home/me", &[]);
    assert_eq!(locate(&mut disk, "/home/me"), Ok(bytes("/")));
}

#[test]
fn root_is_not_found_without_a_lockfile() {
    let mut disk = empty_disk();
    dir(&mut disk, "/", &["home"]);
    dir(&mut disk, "/home", &["me"]);
    dir(&mut disk, "/home/me", &["yarn.lock.old"]);
    assert_eq!(locate(&mut disk, "/home/me"), Err(Failure::RootNotFound));
    assert_eq!(listed(&disk), vec![bytes("/home/me"), bytes("/home"), bytes("/")]);
}

#[test]
fn root_is_not_found_from_the_filesystem_root() {
    let mut disk = empty_disk();
    dir(&mut disk, "/", &["home"]);
    assert_eq!(locate(&mut disk, "/"), Err(Failure::RootNotFound));
    assert_eq!(listed(&disk), vec![bytes("/")]);
}

#[test]
fn root_search_hands_on_a_failed_listing() {
    let mut disk = empty_disk();
    dir(&mut disk, "/", &["yarn.lock"]);
    dir(&mut disk, "/locked", &["in"]);
    dir(&mut disk, "/locked/in", &[]);
    disk.denied.push(bytes("/locked"));
    assert_eq!(locate(&mut disk, "/locked/in"), Err(Failure::Io(IoKind::PermissionDenied)));
    assert_eq!(listed(&disk), vec![bytes("/locked/in"), bytes("/locked")]);
}

#[test]
fn root_is_given_in_canonical_form() {
    let mut disk = repo();
    link(&mut disk, "/repo", "/volumes/main/repo");
    assert_eq!(locate(&mut disk, "/repo/packages/api"), Ok(bytes("/volumes/main/repo")));
}

#[test]
fn root_search_hands_on_a_root_that_cannot_be_canonicalized() {
    let mut disk = repo();
    disk.links.retain(|(from, _)| from != &bytes("/repo"));
    assert_eq!(locate(&mut disk, "/repo/packages/api"), Err(Failure::Io(IoKind::NotFound)));
}

#[test]
fn root_search_settles_on_the_directory_with_the_lockfile() {
    let search = find_root_dir(b".")
        .advance(Reply::Canonical { path: bytes("/repo/packages") })
        .advance(Reply::Entries { names: vec![bytes("api")] })
        .advance(Reply::Entries { names: vec![bytes("yarn.lock")] });
    assert_eq!(search, RootSearch::Settling { dir: bytes("/repo") });
    assert_eq!(search.request(), Some(Request::Canonicalize { path: bytes("/repo") }));
    assert_eq!(
        search.advance(Reply::Canonical { path: bytes("/repo") }),
        RootSearch::Found { root: bytes("/repo") }
    );
}

#[test]
fn root_search_hands_on_a_start_that_is_not_there() {
    let mut disk = repo();
    assert_eq!(locate(&mut disk, "/gone"), Err(Failure::Io(IoKind::NotFound)));
    assert_eq!(listed(&disk), Vec::<Vec<u8>>::new());
}

#[test]
fn root_search_takes_a_wrong_reply_for_a_failure() {
    let search = find_root_dir(b"/repo").advance(Reply::Exists { present: true });
    assert_eq!(search, RootSearch::Failed { failure: Failure::Io(IoKind::Other) });
    let search = find_root_dir(b"/repo")
        .advance(Reply::Canonical { path: bytes("/repo") })
        .advance(Reply::Canonical { path: bytes("/repo") });
    assert_eq!(search, RootSearch::Failed { failure: Failure::Io(IoKind::Other) });
}

#[test]
fn root_search_that_is_over_stays_as_it_is() {
    let found = RootSearch::Found { root: bytes("/repo") };
    assert_eq!(found.request(), None);
    assert_eq!(found.advance(missing()), RootSearch::Found { root: bytes("/repo") });
    let failed = RootSearch::Failed { failure: Failure::RootNotFound };
    assert_eq!(failed.request(), None);
    assert_eq!(
        failed.advance(Reply::Canonical { path: bytes("/") }),
        RootSearch::Failed { failure: Failure::RootNotFound }
    );
}

#[test]
fn root_search_ends_within_its_budget() {
    let canonical = bytes("/a/b/c/d/e");
    let mut search = find_root_dir(b"e").advance(Reply::Canonical { path: bytes("/a/b/c/d/e") });
    let mut replies = 0;
    while search.request().is_some() {
        search = search.advance(Reply::Entries { names: vec![bytes("other")] });
        replies += 1;
    }
    assert_eq!(search, RootSearch::Failed { failure: Failure::RootNotFound });
    assert_eq!(replies, 6);
    assert!(replies <= canonical.len() + 1);
}

#[test]
fn expansion_holds_each_matched_directory_once() {
    let mut disk = empty_disk();
    file(&mut disk, "/repo/package.json", r#"{"workspaces": {"packages": ["packages/*"]}}"#);
    glob(&mut disk, "/repo/packages/*", &["/repo/packages/foo"]);
    let found = expand(&mut disk, b"/repo").unwrap();
    assert_eq!(found, vec![bytes("/repo/packages/foo")]);
    assert_eq!(found.iter().filter(|path| **path == bytes("/repo/packages/foo")).count(), 1);
}

#[test]
fn expansion_reads_the_manifest_under_the_root() {
    let expansion = Expansion::begin(b"/repo");
    assert_eq!(expansion.request(), Some(Request::ReadFile { path: bytes("/repo/package.json") }));
    assert_eq!(expansion.outcome(), None);
}

#[test]
fn expansion_follows_the_order_of_the_patterns() {
    let mut disk = empty_disk();
    file(&mut disk, "/repo/package.json", r#"{"workspaces": {"packages": ["tools/*", "apps/*", "libs/core"]}}"#);
    glob(&mut disk, "/repo/apps/*", &["/repo/apps/a", "/repo/apps/b"]);
    glob(&mut disk, "/repo/tools/*", &["/repo/tools/z"]);
    glob(&mut disk, "/repo/libs/core", &["/repo/libs/core"]);
    assert_eq!(
        expand(&mut disk, b"/repo"),
        Ok(vec![bytes("/repo/tools/z"), bytes("/repo/apps/a"), bytes("/repo/apps/b"), bytes("/repo/libs/core")])
    );
    assert_eq!(globbed(&disk), vec!["/repo/tools/*", "/repo/apps/*", "/repo/libs/core"]);
}

#[test]
fn expansion_keeps_what_two_patterns_both_match() {
    let mut disk = empty_disk();
    file(&mut disk, "/repo/package.json", r#"{"workspaces": {"packages": ["packages/*", "packages/a*"]}}"#);
    glob(&mut disk, "/repo/packages/*", &["/repo/packages/api", "/repo/packages/web"]);
    glob(&mut disk, "/repo/packages/a*", &["/repo/packages/api"]);
    assert_eq!(
        expand(&mut disk, b"/repo"),
        Ok(vec![bytes("/repo/packages/api"), bytes("/repo/packages/web"), bytes("/repo/packages/api")])
    );
}

#[test]
fn expansion_of_no_patterns_is_empty() {
    for manifest in [r#"{"name": "repo"}"#, r#"{"workspaces": {"packages": []}}"#, r#"{"workspaces": null}"#] {
        let mut disk = empty_disk();
        file(&mut disk, "/repo/package.json", manifest);
        assert_eq!(expand(&mut disk, b"/repo"), Ok(vec![]));
        assert_eq!(globbed(&disk), Vec::<String>::new());
    }
}

#[test]
fn expansion_of_patterns_without_matches_is_empty() {
    let mut disk = empty_disk();
    file(&mut disk, "/repo/package.json", r#"{"workspaces": {"packages": ["packages/*"]}}"#);
    assert_eq!(expand(&mut disk, b"/repo"), Ok(vec![]));
    assert_eq!(globbed(&disk), vec!["/repo/packages/*"]);
}

#[test]
fn expansion_fails_without_a_manifest() {
    let mut disk = empty_disk();
    assert_eq!(expand(&mut disk, b"/repo"), Err(Failure::ManifestUnreadable));
}

#[test]
fn expansion_fails_on_a_manifest_that_is_no_json() {
    let mut disk = empty_disk();
    file(&mut disk, "/repo/package.json", "{ workspaces: ");
    assert_eq!(expand(&mut disk, b"/repo"), Err(Failure::ManifestUnparsable));
}

#[test]
fn expansion_fails_on_a_manifest_that_is_no_text() {
    let expansion = Expansion::begin(b"/repo").advance(Reply::Contents { bytes: vec![0x7b, 0xfe, 0x7d] });
    assert_eq!(expansion, Expansion::Failed { failure: Failure::ManifestUnparsable });
}

#[test]
fn expansion_fails_on_a_pattern_that_glob_refuses() {
    let mut disk = empty_disk();
    file(&mut disk, "/repo/package.json", r#"{"workspaces": {"packages": ["packages/*", "bad/[", "apps/*"]}}"#);
    glob(&mut disk, "/repo/packages/*", &["/repo/packages/api"]);
    assert_eq!(expand(&mut disk, b"/repo"), Err(Failure::InvalidPattern));
    assert_eq!(globbed(&disk), vec!["/repo/packages/*"]);
}

#[test]
fn expansion_fails_on_a_root_that_is_no_text() {
    let root = vec![0x2f, 0xff];
    let expansion = Expansion::begin(&root)
        .advance(Reply::Contents { bytes: bytes(r#"{"workspaces": {"packages": ["packages/*"]}}"#) });
    assert_eq!(expansion, Expansion::Failed { failure: Failure::InvalidPattern });
    let expansion = Expansion::begin(&root).advance(Reply::Contents { bytes: bytes(r#"{"workspaces": {"packages": []}}"#) });
    assert_eq!(expansion, Expansion::Done { packages: vec![] });
}

#[test]
fn expansion_fails_where_the_pattern_is_rejected_or_the_walk_fails() {
    let mut disk = empty_disk();
    file(&mut disk, "/repo/package.json", r#"{"workspaces": {"packages": ["packages/[a/b]"]}}"#);
    disk.globs.push(("/repo/packages/[a/b]".to_string(), Reply::PatternRejected));
    assert_eq!(expand(&mut disk, b"/repo"), Err(Failure::InvalidPattern));

    let mut disk = empty_disk();
    file(&mut disk, "/repo/package.json", r#"{"workspaces": {"packages": ["packages/*"]}}"#);
    disk.globs.push(("/repo/packages/*".to_string(), Reply::Failed { kind: IoKind::PermissionDenied }));
    assert_eq!(expand(&mut disk, b"/repo"), Err(Failure::Io(IoKind::PermissionDenied)));
}

#[test]
fn expansion_takes_the_root_for_an_entry_that_is_no_string() {
    let mut disk = empty_disk();
    file(&mut disk, "/repo/package.json", r#"{"workspaces": {"packages": [42, "packages/*"]}}"#);
    glob(&mut disk, "/repo", &["/repo"]);
    glob(&mut disk, "/repo/packages/*", &["/repo/packages/api"]);
    assert_eq!(expand(&mut disk, b"/repo"), Ok(vec![bytes("/repo"), bytes("/repo/packages/api")]));
    assert_eq!(globbed(&disk), vec!["/repo", "/repo/packages/*"]);
}

#[test]
fn expansion_prepares_the_entry_it_is_at() {
    let entries = vec![Some("a/*".to_string()), None, Some("***".to_string())];
    let at_first = Expansion::prepare(bytes("/r"), entries, 0, vec![]);
    assert_eq!(at_first.request(), Some(Request::Glob { pattern: "/r/a/*".to_string() }));
    let at_second = at_first.advance(Reply::Matches { paths: vec![bytes("/r/a/x")] });
    assert_eq!(at_second.request(), Some(Request::Glob { pattern: "/r".to_string() }));
    let at_third = at_second.advance(Reply::Matches { paths: vec![bytes("/r")] });
    assert_eq!(at_third, Expansion::Failed { failure: Failure::InvalidPattern });

    let done = Expansion::prepare(bytes("/r"), vec![Some("a/*".to_string())], 1, vec![bytes("/r/a/x")]);
    assert_eq!(done, Expansion::Done { packages: vec![bytes("/r/a/x")] });
    let past = Expansion::prepare(bytes("/r"), vec![], 5, vec![]);
    assert_eq!(past.outcome(), Some(Ok(vec![])));
}

#[test]
fn expansion_that_is_over_stays_as_it_is() {
    let done = Expansion::Done { packages: vec![bytes("/r/a")] };
    assert_eq!(done.request(), None);
    assert_eq!(done.advance(missing()), Expansion::Done { packages: vec![bytes("/r/a")] });
    let failed = Expansion::Failed { failure: Failure::Io(IoKind::Other) };
    assert_eq!(failed.advance(Reply::Matches { paths: vec![] }).outcome(), Some(Err(Failure::Io(IoKind::Other))));
}

#[test]
fn mr_starts_the_expansion_at_its_root() {
    let expansion = repo_mr("/repo/packages/api").find_package_directories();
    assert_eq!(expansion, Expansion::Reading { root: bytes("/repo") });
}

#[test]
fn root_token_gives_the_root_from_anywhere() {
    for base in ["/repo", "/repo/packages/api", "/elsewhere", "", "/", "../x"] {
        let mut disk = empty_disk();
        assert_eq!(resolve(&mut disk, &repo_mr(base), b"/", None), Ok(bytes("/repo")));
        assert_eq!(resolve(&mut disk, &repo_mr(base), b"/", Some(b"/before")), Ok(bytes("/repo")));
        assert!(disk.asked.is_empty());
    }
}

#[test]
fn previous_token_gives_the_directory_left_last() {
    let mut disk = empty_disk();
    assert_eq!(resolve(&mut disk, &repo_mr("/repo/packages/api"), b"-", Some(b"/gone/away")), Ok(bytes("/gone/away")));
    assert!(disk.asked.is_empty());
}

#[test]
fn previous_token_falls_back_to_the_current_directory() {
    let mut disk = empty_disk();
    assert_eq!(resolve(&mut disk, &repo_mr("/repo/packages/api"), b"-", None), Ok(bytes("/repo/packages/api")));
    assert!(disk.asked.is_empty());
}

#[test]
fn previous_token_passes_over_a_directory_that_is_no_text() {
    let mut disk = empty_disk();
    assert_eq!(
        resolve(&mut disk, &repo_mr("/repo/packages/api"), b"-", Some(&[0x2f, 0xff])),
        Ok(bytes("/repo/packages/api"))
    );
}

#[test]
fn here_token_gives_the_current_directory() {
    let mut disk = empty_disk();
    assert_eq!(resolve(&mut disk, &repo_mr("/repo/packages/api"), b".", Some(b"/before")), Ok(bytes("/repo/packages/api")));
    assert!(disk.asked.is_empty());
}

#[test]
fn fragment_that_is_no_text_is_refused_at_once() {
    let mut disk = repo();
    assert_eq!(resolve(&mut disk, &repo_mr("/repo"), &[0x77, 0x65, 0xff], None), Err(Failure::InvalidInput));
    assert!(disk.asked.is_empty());
}

#[test]
fn fragment_is_matched_against_the_package_directories() {
    let mut disk = repo();
    assert_eq!(resolve(&mut disk, &repo_mr("/repo/packages/api"), b"web", None), Ok(bytes("/repo/packages/web")));
    assert_eq!(probed(&disk), Vec::<Vec<u8>>::new());
}

#[test]
fn first_matching_package_wins() {
    let mut disk = empty_disk();
    dir(&mut disk, "/repo", &[]);
    dir(&mut disk, "/repo/packages/app", &[]);
    dir(&mut disk, "/repo/packages/webapp", &[]);
    file(&mut disk, "/repo/package.json", r#"{"workspaces": {"packages": ["packages/*"]}}"#);
    glob(&mut disk, "/repo/packages/*", &["/repo/packages/app", "/repo/packages/webapp"]);
    assert_eq!(resolve(&mut disk, &repo_mr("/repo"), b"app", None), Ok(bytes("/repo/packages/app")));
    assert_eq!(resolve(&mut disk, &repo_mr("/repo"), b"bapp", None), Ok(bytes("/repo/packages/webapp")));
}

#[test]
fn matched_package_is_given_in_canonical_form() {
    let mut disk = repo();
    link(&mut disk, "/repo/packages/web", "/srv/web");
    assert_eq!(resolve(&mut disk, &repo_mr("/repo"), b"web", None), Ok(bytes("/srv/web")));
}

#[test]
fn matched_package_that_cannot_be_canonicalized_fails() {
    let mut disk = repo();
    disk.links.clear();
    assert_eq!(resolve(&mut disk, &repo_mr("/repo"), b"web", None), Err(Failure::Io(IoKind::NotFound)));
}

#[test]
fn walk_finds_a_sibling_under_the_root() {
    let mut disk = empty_disk();
    dir(&mut disk, "/repo", &["yarn.lock", "sibling", "packages"]);
    dir(&mut disk, "/repo/sibling", &[]);
    dir(&mut disk, "/repo/packages/api", &[]);
    assert_eq!(resolve(&mut disk, &repo_mr("/repo/packages/api"), b"sibling", None), Ok(bytes("/repo/sibling")));
    assert_eq!(
        probed(&disk),
        vec![bytes("/repo/packages/api/sibling"), bytes("/repo/packages/sibling"), bytes("/repo/sibling")]
    );
}

#[test]
fn walk_serves_where_no_package_matches() {
    let mut disk = repo();
    dir(&mut disk, "/repo/docs", &[]);
    assert_eq!(resolve(&mut disk, &repo_mr("/repo/packages/api"), b"docs", None), Ok(bytes("/repo/docs")));
}

#[test]
fn walk_serves_where_the_expansion_failed() {
    let mut disk = empty_disk();
    dir(&mut disk, "/repo", &[]);
    file(&mut disk, "/repo/package.json", r#"{"workspaces": {"packages": ["[bad"]}}"#);
    dir(&mut disk, "/repo/sibling", &[]);
    assert_eq!(resolve(&mut disk, &repo_mr("/repo"), b"sibling", None), Ok(bytes("/repo/sibling")));
}

#[test]
fn walk_takes_the_nearest_directory_that_has_the_fragment() {
    let mut disk = empty_disk();
    dir(&mut disk, "/repo", &[]);
    dir(&mut disk, "/repo/src", &[]);
    dir(&mut disk, "/repo/packages/api", &[]);
    dir(&mut disk, "/repo/packages/api/src", &[]);
    assert_eq!(resolve(&mut disk, &repo_mr("/repo/packages/api"), b"src", None), Ok(bytes("/repo/packages/api/src")));
    assert_eq!(probed(&disk), vec![bytes("/repo/packages/api/src")]);
}

#[test]
fn walk_resolves_a_relative_path_in_canonical_form() {
    let mut disk = repo();
    link(&mut disk, "/repo/packages/api/../web", "/repo/packages/web");
    assert_eq!(resolve(&mut disk, &repo_mr("/repo/packages/api"), b"../web", None), Ok(bytes("/repo/packages/web")));
}

#[test]
fn walk_starts_from_the_canonical_current_directory() {
    let mut disk = repo();
    link(&mut disk, "/repo/packages/api/src/..", "/repo/packages/api");
    assert_eq!(
        resolve(&mut disk, &repo_mr("/repo/packages/api/src/.."), b"missing", None),
        Err(Failure::FragmentNotFound)
    );
    assert_eq!(
        probed(&disk),
        vec![bytes("/repo/packages/api/missing"), bytes("/repo/packages/missing"), bytes("/repo/missing")]
    );
}

#[test]
fn walk_from_a_linked_current_directory_stays_between_it_and_the_root() {
    let mut disk = repo();
    dir(&mut disk, "/home", &["docs"]);
    dir(&mut disk, "/home/docs", &[]);
    link(&mut disk, "/home/api", "/repo/packages/api");
    assert_eq!(resolve(&mut disk, &repo_mr("/home/api"), b"docs", None), Err(Failure::FragmentNotFound));
    assert_eq!(
        probed(&disk),
        vec![bytes("/repo/packages/api/docs"), bytes("/repo/packages/docs"), bytes("/repo/docs")]
    );
}

#[test]
fn walk_ends_at_the_canonical_root() {
    let mut disk = repo();
    link(&mut disk, "/repo/packages/..", "/repo");
    dir(&mut disk, "/home", &[]);
    let mr = Mr::new(bytes("/repo/packages/.."), bytes("/repo/packages/api"));
    assert_eq!(resolve(&mut disk, &mr, b"home", None), Err(Failure::FragmentNotFound));
    assert_eq!(probed(&disk).last(), Some(&bytes("/repo/home")));
}

#[test]
fn walk_fails_where_the_current_directory_is_not_there() {
    let mut disk = repo();
    assert_eq!(resolve(&mut disk, &repo_mr("/repo/gone"), b"missing", None), Err(Failure::Io(IoKind::NotFound)));
    assert_eq!(probed(&disk), Vec::<Vec<u8>>::new());
}

#[test]
fn fragment_that_is_nowhere_is_not_found() {
    let mut disk = repo();
    assert_eq!(resolve(&mut disk, &repo_mr("/repo/packages/api"), b"missing", None), Err(Failure::FragmentNotFound));
    assert_eq!(
        probed(&disk),
        vec![bytes("/repo/packages/api/missing"), bytes("/repo/packages/missing"), bytes("/repo/missing")]
    );
}

#[test]
fn walk_does_not_go_above_the_root() {
    let mut disk = repo();
    dir(&mut disk, "/home", &[]);
    assert_eq!(resolve(&mut disk, &repo_mr("/repo/packages/api"), b"home", None), Err(Failure::FragmentNotFound));
    assert!(!probed(&disk).contains(&bytes("/home")));
    assert_eq!(probed(&disk).last(), Some(&bytes("/repo/home")));
}

#[test]
fn walk_from_outside_the_repository_ends_at_the_filesystem_root() {
    let mut disk = repo();
    dir(&mut disk, "/home/me", &[]);
    assert_eq!(resolve(&mut disk, &repo_mr("/home/me"), b"missing", None), Err(Failure::FragmentNotFound));
    assert_eq!(probed(&disk), vec![bytes("/home/me/missing"), bytes("/home/missing"), bytes("/missing")]);
}

#[test]
fn walk_hands_on_a_probe_that_was_not_answered() {
    let resolution = repo_mr("/repo")
        .cwd(b"missing", None)
        .advance(Reply::Packages { found: Ok(vec![]) })
        .advance(Reply::Canonical { path: bytes("/repo") })
        .advance(Reply::Canonical { path: bytes("/repo") })
        .advance(Reply::Failed { kind: IoKind::PermissionDenied });
    assert_eq!(resolution, Resolution::Failed { failure: Failure::Io(IoKind::PermissionDenied) });
}

#[test]
fn resolution_asks_for_the_packages_of_its_root() {
    let resolution = repo_mr("/repo/packages/api").cwd(b"web", None);
    assert_eq!(resolution.request(), Some(Request::Packages { root: bytes("/repo") }));
    assert_eq!(resolution.outcome(), None);
}

#[test]
fn resolution_takes_any_other_reply_for_no_packages() {
    let resolution = repo_mr("/repo").cwd(b"web", None).advance(missing());
    assert_eq!(resolution.request(), Some(Request::Canonicalize { path: bytes("/repo") }));
}

#[test]
fn resolution_asks_for_both_ends_of_the_walk() {
    let resolution = Mr::new(bytes("root"), bytes("base")).cwd(b"web", None).advance(Reply::Packages { found: Ok(vec![]) });
    assert_eq!(resolution.request(), Some(Request::Canonicalize { path: bytes("root") }));
    let resolution = resolution.advance(Reply::Canonical { path: bytes("/r") });
    assert_eq!(resolution.request(), Some(Request::Canonicalize { path: bytes("base") }));
    let resolution = resolution.advance(Reply::Canonical { path: bytes("/r/b") });
    assert_eq!(resolution.request(), Some(Request::Exists { path: bytes("/r/b/web") }));
    let resolution = resolution.advance(Reply::Exists { present: false });
    assert_eq!(resolution.request(), Some(Request::Exists { path: bytes("/r/web") }));
    let resolution = resolution.advance(Reply::Exists { present: false });
    assert_eq!(resolution, Resolution::Failed { failure: Failure::FragmentNotFound });
}

#[test]
fn resolution_that_is_over_stays_as_it_is() {
    let done = Resolution::Done { path: bytes("/repo") };
    assert_eq!(done.request(), None);
    assert_eq!(done.advance(missing()), Resolution::Done { path: bytes("/repo") });
    let failed = Resolution::Failed { failure: Failure::FragmentNotFound };
    assert_eq!(failed.advance(Reply::Exists { present: true }).outcome(), Some(Err(Failure::FragmentNotFound)));
}

#[test]
fn resolution_ends_within_its_budget() {
    let canonical = bytes("/repo/a/b/c");
    let mut resolution = Mr::new(bytes("/nowhere"), bytes("c"))
        .cwd(b"x", None)
        .advance(Reply::Packages { found: Ok(vec![]) })
        .advance(Reply::Canonical { path: bytes("/nowhere") })
        .advance(Reply::Canonical { path: bytes("/repo/a/b/c") });
    let mut replies = 0;
    while resolution.request().is_some() {
        resolution = resolution.advance(Reply::Exists { present: false });
        replies += 1;
    }
    assert_eq!(resolution.outcome(), Some(Err(Failure::FragmentNotFound)));
    assert_eq!(replies, 5);
    assert!(replies <= canonical.len() + 2);
}

#[test]
fn running_a_script_in_a_sibling_package() {
    let mut disk = repo();
    let root = locate(&mut disk, "/repo/packages/api").unwrap();
    let mr = Mr::new(root, bytes("/repo/packages/api"));
    let target = resolve(&mut disk, &mr, b"web", None).unwrap();
    assert_eq!(command(&target, Some(b"build")), bytes("yarn run --cwd=/repo/packages/web build"));
}

#[test]
fn changing_into_a_sibling_package() {
    let mut disk = repo();
    let root = locate(&mut disk, "/repo/packages/api/src").unwrap();
    let mr = Mr::new(root, bytes("/repo/packages/api/src"));
    let target = resolve(&mut disk, &mr, b"web", None).unwrap();
    assert_eq!(command(&target, None), bytes("cd /repo/packages/web"));
}

#[test]
fn listing_the_packages_from_any_directory() {
    for start in ["/repo", "/repo/packages", "/repo/packages/api/src"] {
        let mut disk = repo();
        let root = locate(&mut disk, start).unwrap();
        let mr = Mr::new(root, bytes(start));
        let found = expand(&mut disk, &mr.root);
        let listing = mr.list_package_directories(&found);
        assert_eq!(
            listing_command(&listing),
            bytes("echo \"/repo/packages/api\n/repo/packages/web\n\"")
        );
    }
}

#[test]
fn listing_without_a_manifest_is_empty() {
    let mut disk = empty_disk();
    let mr = repo_mr("/repo");
    let found = expand(&mut disk, &mr.root);
    assert_eq!(listing_command(&mr.list_package_directories(&found)), bytes("echo \"\""));
}
