use hk::component::PathStyle;
use hk::files::{
    expand_excludes, named_files, source_message, FileListing, FileSource, ListAction, ListEvent,
    ListPhase, PathStat, RepoStatus,
};
use hk::options::HookOptions;
use hk::path::{collect, FilePath, FileSet, PathOrder};
use hk::walk::{all_files_in_dir, plain_files, DirWalk, Entry, WalkAction};

fn text(s: &str) -> String {
    s.to_string()
}

fn path(s: &str) -> FilePath {
    FilePath::from_text(s, PathStyle::Unix)
}

fn paths(list: Vec<&str>) -> Vec<FilePath> {
    let mut r = vec![];
    for s in list {
        r.push(path(s));
    }
    r
}

fn shown(list: &Vec<FilePath>) -> Vec<String> {
    let mut r = vec![];
    for p in list {
        r.push(p.display());
    }
    r
}

fn set_shown(set: &FileSet) -> Vec<String> {
    let mut r = vec![];
    for i in 0..set.len() {
        r.push(set.path_at(i).display());
    }
    r
}

fn options() -> HookOptions {
    HookOptions {
        fail_fast: false,
        no_fail_fast: false,
        should_stage: None,
        fix: false,
        stash: None,
        step: vec![],
        skip_step: vec![],
        files: None,
        glob: None,
        from_ref: None,
        to_ref: None,
        all: false,
        exclude: None,
    }
}

fn status() -> RepoStatus {
    RepoStatus {
        staged: paths(vec!["s"]),
        unstaged: paths(vec!["u"]),
        untracked: paths(vec!["n"]),
    }
}

type Event = ListEvent<&'static str>;
type Action = ListAction<&'static str>;

fn start(opts: &HookOptions, stash: bool) -> (FileListing, Action) {
    FileListing::start(opts, &vec![], stash, status())
}

#[test]
fn paths_are_ordered_by_components() {
    let order = |a: &str, b: &str| path(a).order(&path(b));
    assert_eq!(order("a/b", "a/b"), PathOrder::Same);
    assert_eq!(order("a//b/./", "a/b"), PathOrder::Same);
    assert_eq!(order("./a", "a"), PathOrder::Before);
    // A separator counts less than any character of a name.
    assert_eq!(order("a/z", "a.b"), PathOrder::Before);
    assert_eq!(order("/z", "a"), PathOrder::Before);
    assert_eq!(order("b", "a/c"), PathOrder::After);
    assert_eq!(order("a", "a/b"), PathOrder::Before);
    assert_eq!(order("..", "a"), PathOrder::Before);
    assert_eq!(order("/z", "./a"), PathOrder::Before);
    assert_eq!(order("./a", "../a"), PathOrder::Before);
    assert_eq!(order("/z", "../a"), PathOrder::Before);
}

#[test]
fn sets_hold_each_path_once_in_order() {
    let set = collect(&paths(vec!["b", "a/z", "a.b", "a//z", "b"]));
    assert_eq!(set_shown(&set), vec!["a/z", "a.b", "b"]);
    assert!(set.contains(&path("a/./z")));
    assert!(!set.contains(&path("a")));
}

#[test]
fn source_depends_on_options() {
    let mut opts = options();
    assert_eq!(start(&opts, true).0.source, FileSource::Staged);
    assert_eq!(start(&opts, false).0.source, FileSource::Changed);
    opts.all = true;
    assert_eq!(start(&opts, true).0.source, FileSource::All { untracked: false });
    assert_eq!(start(&opts, false).0.source, FileSource::All { untracked: true });
    opts.from_ref = Some(text("main"));
    assert_eq!(start(&opts, false).0.source, FileSource::BetweenRevisions);
    assert_eq!(
        source_message(&opts, false),
        Some(text("Fetching files changed since main"))
    );
    opts.to_ref = Some(text("HEAD"));
    assert_eq!(
        source_message(&opts, false),
        Some(text("Fetching files between main and HEAD"))
    );
    opts.to_ref = Some(text("0000000000000000000000000000000000000000"));
    assert_eq!(start(&opts, false).0.source, FileSource::Nothing);
    assert_eq!(
        source_message(&opts, false),
        Some(text("No files to compare for remote branch deletion"))
    );
    opts.glob = Some(vec![text("*.rs")]);
    assert_eq!(start(&opts, false).0.source, FileSource::Matching { untracked: true });
    assert_eq!(source_message(&opts, false), Some(text("Fetching files matching glob")));
    opts.files = Some(vec![]);
    assert_eq!(start(&opts, false).0.source, FileSource::Named);
    assert_eq!(source_message(&opts, false), None);
    assert_eq!(source_message(&options(), true), Some(text("Fetching staged files")));
    assert_eq!(source_message(&options(), false), Some(text("Fetching modified files")));
}

#[test]
fn changed_files_come_from_the_status() {
    let (listing, a) = start(&options(), false);
    assert!(matches!(a, Action::Fetch(FileSource::Changed)));
    let (listing, a) = listing.step(Event::Fetched(Ok(vec![])));
    assert!(matches!(a, Action::Stat));
    assert_eq!(set_shown(&listing.files), vec!["n", "s", "u"]);
    let (_, a) = start(&options(), true).0.step(Event::Fetched(Ok(vec![])));
    assert!(matches!(a, Action::Stat));
}

#[test]
fn directories_and_excluded_files_are_dropped() {
    let mut opts = options();
    opts.all = true;
    opts.exclude = Some(vec![text("vendor")]);
    let (listing, _): (FileListing, Action) =
        FileListing::start(&opts, &vec![text("*.min.js")], true, status());
    assert_eq!(listing.excludes, vec!["*.min.js", "vendor", "vendor/*", "vendor/**"]);
    let fetched = paths(vec!["./a", "dir", "link", "broken", "gone", "vendor/x", "a"]);
    let (listing, _) = listing.step(Event::Fetched(Ok(fetched)));
    assert_eq!(
        set_shown(&listing.files),
        vec!["a", "broken", "dir", "gone", "link", "vendor/x"]
    );
    // Too few answers are refused.
    let (listing, a) = listing.step(Event::Stats(vec![]));
    assert!(matches!(a, Action::Refuse));
    let (listing, a) = listing.step(Event::Stats(vec![
        PathStat::File,
        PathStat::BrokenLink,
        PathStat::Directory,
        PathStat::Missing,
        PathStat::LinkToDirectory,
        PathStat::LinkToFile,
    ]));
    assert!(matches!(a, Action::MatchExcludes));
    assert_eq!(set_shown(&listing.files), vec!["a", "broken", "gone", "vendor/x"]);
    let (listing, a) = listing.step(Event::Matched(Ok(paths(vec!["vendor//x"]))));
    match a {
        Action::Finish(Ok(files)) => assert_eq!(set_shown(&files), vec!["a", "broken", "gone"]),
        _ => panic!("not finished"),
    }
    assert_eq!(listing.phase, ListPhase::Finished);
}

#[test]
fn matching_files_are_asked_for() {
    let mut opts = options();
    opts.glob = Some(vec![text("*.rs")]);
    let (listing, _) = start(&opts, false);
    let (listing, a) = listing.step(Event::Fetched(Ok(paths(vec!["a.rs", "b.js"]))));
    match a {
        Action::Match(list) => assert_eq!(shown(&list), vec!["a.rs", "b.js", "n"]),
        _ => panic!("no match"),
    }
    let (listing, _) = listing.step(Event::Matched(Ok(paths(vec!["a.rs"]))));
    let (_, a) = listing.step(Event::Stats(vec![PathStat::File]));
    match a {
        Action::Finish(Ok(files)) => assert_eq!(set_shown(&files), vec!["a.rs"]),
        _ => panic!("not finished"),
    }
    let (listing, _) = start(&opts, false);
    let (_, a) = listing.step(Event::Fetched(Err("git")));
    assert!(matches!(a, Action::Finish(Err("git"))));
}

#[test]
fn leading_dots_are_dropped_from_texts_only() {
    assert_eq!(path("./a/b").strip_dot().display(), "a/b");
    assert_eq!(path(".a").strip_dot().display(), ".a");
    let odd = FilePath { bytes: vec![46, 47, 255], style: PathStyle::Unix };
    assert_eq!(odd.strip_dot().bytes, vec![46, 47, 255]);
    assert_eq!(odd.display(), "./\u{fffd}");
}

#[test]
fn plain_excludes_cover_directories() {
    let both = expand_excludes(&vec![text("a"), text("b*")], &Some(vec![text("c?"), text("d")]));
    assert_eq!(both, vec!["a", "a/*", "a/**", "b*", "c?", "d", "d/*", "d/**"]);
    assert_eq!(expand_excludes(&vec![text("[x]")], &None), vec!["[x]"]);
}

#[test]
fn named_files_are_flattened() {
    let all = named_files(&vec![paths(vec!["a"]), paths(vec![]), paths(vec!["d/x", "d/y"])]);
    assert_eq!(shown(&all), vec!["a", "d/x", "d/y"]);
}

#[test]
fn paths_lead_from_directories() {
    assert_eq!(path("/base").join(&path("a/b")).display(), "/base/a/b");
    assert_eq!(path("/base/").join(&path("a")).display(), "/base/a");
    assert_eq!(path("/base").join(&path("/a")).display(), "/a");
    assert_eq!(path("").join(&path("a")).display(), "a");
    assert!(path("/a").is_absolute());
    assert!(!path("a").is_absolute());
}

#[test]
fn prefixes_are_compared_by_components() {
    assert!(path("/tmp/x/a").starts_with(&path("/tmp/x")));
    assert!(path("/tmp//x/./a").starts_with(&path("/tmp/x/")));
    assert!(!path("/tmp/xy").starts_with(&path("/tmp/x")));
    assert!(!path("tmp/x").starts_with(&path("/tmp")));
}

#[test]
fn parents_drop_the_last_component() {
    let parent = |s: &str| {
        path(s).parent().map(|p| p.display())
    };
    assert_eq!(parent("a/b/c"), Some(text("a/b")));
    assert_eq!(parent("a//b"), Some(text("a")));
    assert_eq!(parent("a/./b/."), Some(text("a")));
    assert_eq!(parent("./b"), Some(text(".")));
    assert_eq!(parent("b"), Some(text("")));
    assert_eq!(parent("/b"), Some(text("/")));
    assert_eq!(parent("/"), None);
    assert_eq!(parent(""), None);
}

fn entry(s: &str, is_dir: bool) -> Entry {
    Entry { path: path(s), is_dir }
}

#[test]
fn walk_finds_files_in_order() {
    let (walk, a): (DirWalk, WalkAction<&str>) = all_files_in_dir(path("d"));
    match a {
        WalkAction::List(p) => assert_eq!(p.display(), "d"),
        _ => panic!("not asked"),
    }
    let (walk, a) = walk.step::<&str>(Ok(vec![
        entry("d/a", false),
        entry("d/sub", true),
        entry("d/z", false),
    ]));
    match a {
        WalkAction::List(p) => assert_eq!(p.display(), "d/sub"),
        _ => panic!("not asked"),
    }
    let (walk, a) = walk.step::<&str>(Ok(vec![entry("d/sub/x", false), entry("d/sub/empty", true)]));
    match a {
        WalkAction::List(p) => assert_eq!(p.display(), "d/sub/empty"),
        _ => panic!("not asked"),
    }
    let (_, a) = walk.step::<&str>(Ok(vec![]));
    match a {
        WalkAction::Finish(Ok(files)) => {
            assert_eq!(shown(&files), vec!["d/a", "d/sub/x", "d/z"])
        }
        _ => panic!("not finished"),
    }
    let (walk, _): (DirWalk, WalkAction<&str>) = all_files_in_dir(path("d"));
    let (_, a) = walk.step(Err("denied"));
    assert!(matches!(a, WalkAction::Finish(Err("denied"))));
}

#[test]
fn only_plain_files_count() {
    let found = vec![(path("a"), true), (path("d"), false), (path("b"), true)];
    assert_eq!(shown(&plain_files(&found)), vec!["a", "b"]);
}
