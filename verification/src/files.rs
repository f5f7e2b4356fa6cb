//! Which files a hook works on.
use crate::component::PathView;
use crate::options::HookOptions;
use crate::path::{self, FilePath, FileSet};
use crate::step::types::opt_text;
use crate::text;
use vstd::prelude::*;

verus! {

/// The revision that stands for the other side of a deleted branch.
pub open spec fn no_revision() -> Seq<char> {
    "0000000000000000000000000000000000000000"@
}

/// Where the files come from.
#[derive(Clone, Copy, Debug, PartialEq, Eq, Structural)]
pub enum FileSource {
    /// The files that the command line names, and those in the directories that it names.
    Named,
    /// The files of the repository that match the patterns of the command line, untracked ones
    /// among them or not.
    Matching { untracked: bool },
    /// No files: a remote branch is deleted.
    Nothing,
    /// The files that changed between two revisions.
    BetweenRevisions,
    /// All files of the repository, untracked ones among them or not.
    All { untracked: bool },
    /// The staged files.
    Staged,
    /// The staged, changed and untracked files.
    Changed,
}

/// Where the files come from. What the command line names comes before its patterns, these before
/// its revisions, and these before all files; else the staged files count where changes are put
/// aside, and all changed ones where they are not. Files that are put aside are not worked on.
pub open spec fn source_of(opts: HookOptions, stash: bool) -> FileSource {
    if opts.files is Some {
        FileSource::Named
    } else if opts.glob is Some {
        FileSource::Matching { untracked: !stash }
    } else if opts.from_ref is Some {
        if opt_text(opts.to_ref) == Some(no_revision()) {
            FileSource::Nothing
        } else {
            FileSource::BetweenRevisions
        }
    } else if opts.all {
        FileSource::All { untracked: !stash }
    } else if stash {
        FileSource::Staged
    } else {
        FileSource::Changed
    }
}

/// Where the files come from.
pub fn file_source(opts: &HookOptions, stash: bool) -> (r: FileSource)
    ensures
        r == source_of(*opts, stash),
{
    if opts.files.is_some() {
        FileSource::Named
    } else if opts.glob.is_some() {
        FileSource::Matching { untracked: !stash }
    } else if opts.from_ref.is_some() {
        match &opts.to_ref {
            Some(to) => if text::same(to.as_str(), "0000000000000000000000000000000000000000") {
                FileSource::Nothing
            } else {
                FileSource::BetweenRevisions
            },
            None => FileSource::BetweenRevisions,
        }
    } else if opts.all {
        FileSource::All { untracked: !stash }
    } else if stash {
        FileSource::Staged
    } else {
        FileSource::Changed
    }
}

/// What is shown while the files are fetched.
pub open spec fn source_text(opts: HookOptions, stash: bool) -> Option<Seq<char>> {
    match source_of(opts, stash) {
        FileSource::Named => None,
        FileSource::Matching { untracked: _ } => Some("Fetching files matching glob"@),
        FileSource::Nothing => Some("No files to compare for remote branch deletion"@),
        FileSource::BetweenRevisions => match opts.to_ref {
            Some(to) => Some("Fetching files between "@ + opts.from_ref->0@ + " and "@ + to@),
            None => Some("Fetching files changed since "@ + opts.from_ref->0@),
        },
        FileSource::All { untracked: _ } => Some("Fetching all files in repo"@),
        FileSource::Staged => Some("Fetching staged files"@),
        FileSource::Changed => Some("Fetching modified files"@),
    }
}

/// What is shown while the files are fetched.
pub fn source_message(opts: &HookOptions, stash: bool) -> (r: Option<String>)
    ensures
        opt_text(r) == source_text(*opts, stash),
{
    match file_source(opts, stash) {
        FileSource::Named => None,
        FileSource::Matching { untracked: _ } => Some("Fetching files matching glob".to_owned()),
        FileSource::Nothing => {
            Some("No files to compare for remote branch deletion".to_owned())
        },
        FileSource::BetweenRevisions => {
            let from = opts.from_ref.as_ref().unwrap();
            match &opts.to_ref {
                Some(to) => Some(
                    "Fetching files between ".to_owned().concat(from.as_str()).concat(
                        " and ",
                    ).concat(to.as_str()),
                ),
                None => Some("Fetching files changed since ".to_owned().concat(from.as_str())),
            }
        },
        FileSource::All { untracked: _ } => Some("Fetching all files in repo".to_owned()),
        FileSource::Staged => Some("Fetching staged files".to_owned()),
        FileSource::Changed => Some("Fetching modified files".to_owned()),
    }
}

/// The files that the status of a repository speaks of.
#[derive(Clone, Debug)]
pub struct RepoStatus {
    pub staged: Vec<FilePath>,
    pub unstaged: Vec<FilePath>,
    pub untracked: Vec<FilePath>,
}

/// The files of a source before patterns are applied: what was fetched for it and what the status
/// adds to that.
pub open spec fn candidates(
    source: FileSource,
    fetched: Seq<PathView>,
    status: RepoStatus,
) -> Seq<PathView> {
    match source {
        FileSource::Named => fetched,
        FileSource::BetweenRevisions => fetched,
        FileSource::Nothing => Seq::empty(),
        FileSource::Matching { untracked } => if untracked {
            fetched + path::views(status.untracked@)
        } else {
            fetched
        },
        FileSource::All { untracked } => if untracked {
            fetched + path::views(status.untracked@)
        } else {
            fetched
        },
        FileSource::Staged => path::views(status.staged@),
        FileSource::Changed => path::views(status.staged@) + path::views(status.unstaged@)
            + path::views(status.untracked@),
    }
}

fn push_all(list: &mut Vec<FilePath>, more: &Vec<FilePath>)
    ensures
        path::views(final(list)@) == path::views(old(list)@) + path::views(more@),
{
    let ghost start = path::views(list@);
    let ghost all = path::views(more@);
    let mut i: usize = 0;
    assert(start + all.take(0) =~= start);
    while i < more.len()
        invariant
            i <= more@.len(),
            all == path::views(more@),
            path::views(list@) == start + all.take(i as int),
        decreases more@.len() - i,
    {
        let p = more[i].copy();
        let ghost before = path::views(list@);
        list.push(p);
        proof {
            assert(path::views(list@) =~= before.push(p@));
            assert(start + all.take(i + 1) =~= before.push(all[i as int]));
        }
        i = i + 1;
    }
    assert(all.take(all.len() as int) =~= all);
}

/// The files of a source before patterns are applied.
pub fn candidate_files(source: FileSource, fetched: Vec<FilePath>, status: &RepoStatus) -> (r: Vec<
    FilePath,
>)
    ensures
        path::views(r@) == candidates(source, path::views(fetched@), *status),
{
    let mut none: Vec<FilePath> = Vec::new();
    assert(path::views(none@) =~= Seq::<PathView>::empty());
    match source {
        FileSource::Named | FileSource::BetweenRevisions => fetched,
        FileSource::Nothing => none,
        FileSource::Matching { untracked } | FileSource::All { untracked } => {
            let mut r = fetched;
            if untracked {
                push_all(&mut r, &status.untracked);
            }
            r
        },
        FileSource::Staged => {
            push_all(&mut none, &status.staged);
            assert(path::views(none@) =~= path::views(status.staged@));
            none
        },
        FileSource::Changed => {
            push_all(&mut none, &status.staged);
            push_all(&mut none, &status.unstaged);
            push_all(&mut none, &status.untracked);
            assert(path::views(none@) =~= candidates(source, path::views(fetched@), *status));
            none
        },
    }
}

/// All paths of the lists, one list after the other.
pub open spec fn flattened(lists: Seq<Vec<FilePath>>) -> Seq<PathView>
    decreases lists.len(),
{
    if lists.len() == 0 {
        Seq::empty()
    } else {
        flattened(lists.drop_last()) + path::views(lists.last()@)
    }
}

/// The files that the command line names, given for each of its arguments the files that the
/// argument stands for: itself, or those in the directory.
pub fn named_files(found: &Vec<Vec<FilePath>>) -> (r: Vec<FilePath>)
    ensures
        path::views(r@) == flattened(found@),
{
    let mut r: Vec<FilePath> = Vec::new();
    let mut i: usize = 0;
    assert(path::views(r@) =~= flattened(found@.take(0)));
    while i < found.len()
        invariant
            i <= found@.len(),
            path::views(r@) == flattened(found@.take(i as int)),
        decreases found@.len() - i,
    {
        push_all(&mut r, &found[i]);
        assert(found@.take(i + 1).drop_last() =~= found@.take(i as int));
        i = i + 1;
    }
    assert(found@.take(found@.len() as int) =~= found@);
    r
}

/// What the file system says of a path.
#[derive(Clone, Copy, Debug, PartialEq, Eq, Structural)]
pub enum PathStat {
    /// Nothing: the path was deleted or renamed.
    Missing,
    Directory,
    /// Neither a directory nor a link.
    File,
    LinkToDirectory,
    LinkToFile,
    /// A link that leads nowhere.
    BrokenLink,
}

/// Whether a path is worked on: directories are not, nor are links to directories.
pub open spec fn is_workable(stat: PathStat) -> bool {
    !(stat is Directory) && !(stat is LinkToDirectory)
}

/// Whether a pattern holds a character that has a meaning in globs.
pub open spec fn is_glob(pattern: Seq<char>) -> bool {
    pattern.contains('*') || pattern.contains('?') || pattern.contains('[')
}

/// The patterns that a pattern for leaving files out stands for: a plain one stands for a
/// directory too, and then for all that is in it.
pub open spec fn expanded(pattern: Seq<char>) -> Seq<Seq<char>> {
    if is_glob(pattern) {
        seq![pattern]
    } else {
        seq![pattern, pattern + "/*"@, pattern + "/**"@]
    }
}

/// The patterns that a list of patterns stands for.
pub open spec fn all_expanded(patterns: Seq<Seq<char>>) -> Seq<Seq<char>>
    decreases patterns.len(),
{
    if patterns.len() == 0 {
        Seq::empty()
    } else {
        all_expanded(patterns.drop_last()) + expanded(patterns.last())
    }
}

/// The patterns for leaving files out, of the settings and then of the command line.
pub open spec fn exclude_patterns(settings: Seq<String>, cli: Option<Vec<String>>) -> Seq<
    Seq<char>,
> {
    match cli {
        Some(c) => text::texts(settings) + text::texts(c@),
        None => text::texts(settings),
    }
}

fn holds_char(s: &str, c: char) -> (b: bool)
    ensures
        b == s@.contains(c),
{
    let x = text::chars_of(s);
    let mut i: usize = 0;
    while i < x.len()
        invariant
            i <= x@.len(),
            x@ == s@,
            forall|j: int| 0 <= j < i ==> x@[j] != c,
        decreases x@.len() - i,
    {
        if x[i] == c {
            assert(s@[i as int] == c);
            return true;
        }
        i = i + 1;
    }
    false
}

fn push_expanded(list: &mut Vec<String>, patterns: &Vec<String>)
    ensures
        text::texts(final(list)@) == text::texts(old(list)@) + all_expanded(
            text::texts(patterns@),
        ),
{
    let ghost start = text::texts(list@);
    let ghost all = text::texts(patterns@);
    let mut i: usize = 0;
    assert(start + all_expanded(all.take(0)) =~= start);
    while i < patterns.len()
        invariant
            i <= patterns@.len(),
            all == text::texts(patterns@),
            text::texts(list@) == start + all_expanded(all.take(i as int)),
        decreases patterns@.len() - i,
    {
        let p = patterns[i].as_str();
        let ghost before = text::texts(list@);
        list.push(patterns[i].clone());
        if !holds_char(p, '*') && !holds_char(p, '?') && !holds_char(p, '[') {
            list.push(patterns[i].clone().concat("/*"));
            list.push(patterns[i].clone().concat("/**"));
        }
        proof {
            assert(all.take(i + 1).drop_last() =~= all.take(i as int));
            assert(text::texts(list@) =~= before + expanded(all[i as int]));
            assert(start + all_expanded(all.take(i + 1)) =~= before + expanded(all[i as int]));
        }
        i = i + 1;
    }
    assert(all.take(all.len() as int) =~= all);
}

/// The expansion of two lists is the expansion of one after that of the other.
pub(crate) proof fn lemma_expanded_add(a: Seq<Seq<char>>, b: Seq<Seq<char>>)
    ensures
        all_expanded(a + b) == all_expanded(a) + all_expanded(b),
    decreases b.len(),
{
    if b.len() == 0 {
        assert(a + b =~= a);
        assert(all_expanded(a) + all_expanded(b) =~= all_expanded(a));
    } else {
        assert((a + b).drop_last() =~= a + b.drop_last());
        lemma_expanded_add(a, b.drop_last());
        assert(all_expanded(a + b) =~= all_expanded(a) + all_expanded(b));
    }
}

/// The patterns for leaving files out, of the settings and then of the command line, each with
/// the patterns that it stands for.
pub fn expand_excludes(settings: &Vec<String>, cli: &Option<Vec<String>>) -> (r: Vec<String>)
    ensures
        text::texts(r@) == all_expanded(exclude_patterns(settings@, *cli)),
{
    let mut r: Vec<String> = Vec::new();
    assert(text::texts(r@) =~= Seq::<Seq<char>>::empty());
    push_expanded(&mut r, settings);
    assert(text::texts(r@) =~= all_expanded(text::texts(settings@)));
    if let Some(c) = cli {
        push_expanded(&mut r, c);
        proof {
            lemma_expanded_add(text::texts(settings@), text::texts(c@));
        }
    }
    r
}

/// Each path without a leading `./`.
pub open spec fn without_dots(items: Seq<PathView>) -> Seq<PathView> {
    Seq::new(items.len(), |i: int| path::without_dot(items[i]))
}

/// Whether `files` are the paths of a list, put in order, then freed of a leading `./` and put in
/// order again.
pub open spec fn is_cleaned(files: Seq<PathView>, list: Seq<PathView>) -> bool {
    exists|set: Seq<PathView>| #[trigger]
        path::is_set_of(set, list) && path::is_set_of(files, without_dots(set))
}

/// The paths of a list, put in order, freed of a leading `./` and put in order again.
pub fn cleaned(list: &Vec<FilePath>) -> (r: FileSet)
    ensures
        is_cleaned(r.items(), path::views(list@)),
{
    let set = path::collect(list);
    let mut bare: Vec<FilePath> = Vec::new();
    let mut i: usize = 0;
    while i < set.len()
        invariant
            i <= set.items().len(),
            bare@.len() == i,
            forall|j: int| 0 <= j < i ==> (#[trigger] bare@[j])@ == without_dots(set.items())[j],
        decreases set.items().len() - i,
    {
        bare.push(set.path_at(i).strip_dot());
        i = i + 1;
    }
    assert(path::views(bare@) =~= without_dots(set.items()));
    path::collect(&bare)
}

/// For each path whether it is worked on.
pub open spec fn workable(stats: Seq<PathStat>) -> Seq<bool> {
    Seq::new(stats.len(), |i: int| is_workable(stats[i]))
}

/// The files without directories and links to directories.
pub fn without_directories(files: &FileSet, stats: &Vec<PathStat>) -> (r: FileSet)
    requires
        stats@.len() == files.items().len(),
    ensures
        r.items() == path::flagged(files.items(), workable(stats@)),
{
    let mut keep: Vec<bool> = Vec::new();
    let mut i: usize = 0;
    while i < stats.len()
        invariant
            i <= stats@.len(),
            keep@.len() == i,
            forall|j: int| 0 <= j < i ==> #[trigger] keep@[j] == is_workable(stats@[j]),
        decreases stats@.len() - i,
    {
        let drop = match stats[i] {
            PathStat::Directory => true,
            PathStat::LinkToDirectory => true,
            _ => false,
        };
        keep.push(!drop);
        i = i + 1;
    }
    assert(keep@ =~= workable(stats@));
    files.retained(&keep)
}

/// For each path whether it is not among those to leave out.
pub open spec fn not_among(items: Seq<PathView>, excluded: Seq<PathView>) -> Seq<bool> {
    Seq::new(items.len(), |i: int| !path::has_path(excluded, items[i]))
}

/// The files that are not among those to leave out.
pub fn without_excluded(files: &FileSet, excluded: &Vec<FilePath>) -> (r: FileSet)
    ensures
        r.items() == path::flagged(files.items(), not_among(files.items(), path::views(excluded@))),
{
    let out = path::collect(excluded);
    let ghost all = path::views(excluded@);
    let mut keep: Vec<bool> = Vec::new();
    let mut i: usize = 0;
    while i < files.len()
        invariant
            i <= files.items().len(),
            keep@.len() == i,
            all == path::views(excluded@),
            path::is_set_of(out.items(), all),
            forall|j: int|
                0 <= j < i ==> #[trigger] keep@[j] == !path::has_path(all, files.items()[j]),
        decreases files.items().len() - i,
    {
        let p = files.path_at(i);
        let found = out.contains(p);
        proof {
            if found {
                let k = choose|k: int|
                    0 <= k < out.items().len() && path::same_path(#[trigger] out.items()[k], p@);
                assert(all.contains(out.items()[k]));
                let m = choose|m: int| 0 <= m < all.len() && all[m] == out.items()[k];
                assert(path::same_path(all[m], p@));
            }
            if path::has_path(all, p@) {
                let m = choose|m: int| 0 <= m < all.len() && path::same_path(#[trigger] all[m], p@);
                assert(path::has_path(out.items(), all[m]));
                let k = choose|k: int|
                    0 <= k < out.items().len() && path::same_path(
                        #[trigger] out.items()[k],
                        all[m],
                    );
                assert(path::same_path(out.items()[k], p@));
            }
        }
        keep.push(!found);
        i = i + 1;
    }
    assert(keep@ =~= not_among(files.items(), all));
    files.retained(&keep)
}

/// What the listing of files waits for.
#[derive(Clone, Copy, Debug, PartialEq, Eq, Structural)]
pub enum ListPhase {
    Fetching,
    Matching,
    Statting,
    Excluding,
    Finished,
}

/// What came of what the listing asked for.
#[derive(Debug)]
pub enum ListEvent<E> {
    /// The files of the source.
    Fetched(Result<Vec<FilePath>, E>),
    /// Those of the files that match the patterns.
    Matched(Result<Vec<FilePath>, E>),
    /// What the file system says of each file.
    Stats(Vec<PathStat>),
}

/// What to do next to list the files.
#[derive(Debug)]
pub enum ListAction<E> {
    /// Fetch what the source needs from outside.
    Fetch(FileSource),
    /// Find which of these files match the patterns of the command line.
    Match(Vec<FilePath>),
    /// Ask the file system about each file.
    Stat,
    /// Find which files match the patterns for leaving files out.
    MatchExcludes,
    /// Return the files, or the error.
    Finish(Result<FileSet, E>),
    /// Nothing: the event cannot come now.
    Refuse,
}

/// The listing of the files that a hook works on.
#[derive(Debug)]
pub struct FileListing {
    pub source: FileSource,
    pub status: RepoStatus,
    /// The patterns for leaving files out.
    pub excludes: Vec<String>,
    pub phase: ListPhase,
    /// The files so far.
    pub files: FileSet,
}

impl FileListing {
    /// Whether `now` and `action` are how the listing goes on by an event.
    pub open spec fn follows<E>(
        self,
        event: ListEvent<E>,
        now: FileListing,
        action: ListAction<E>,
    ) -> bool {
        let same = FileListing { phase: now.phase, files: now.files, ..self };
        match (self.phase, event) {
            (ListPhase::Fetching, ListEvent::Fetched(Ok(fetched))) => {
                let list = candidates(self.source, path::views(fetched@), self.status);
                &&& now == same
                &&& if self.source is Matching {
                    &&& now.phase == ListPhase::Matching
                    &&& now.files == self.files
                    &&& action matches ListAction::Match(m)
                    &&& path::views(m@) == list
                } else {
                    &&& now.phase == ListPhase::Statting
                    &&& is_cleaned(now.files.items(), list)
                    &&& action == ListAction::<E>::Stat
                }
            },
            (ListPhase::Matching, ListEvent::Matched(Ok(matched))) => {
                &&& now == same
                &&& now.phase == ListPhase::Statting
                &&& is_cleaned(now.files.items(), path::views(matched@))
                &&& action == ListAction::<E>::Stat
            },
            (ListPhase::Statting, ListEvent::Stats(stats)) => if stats@.len()
                == self.files.items().len() {
                let left = path::flagged(self.files.items(), workable(stats@));
                &&& now == same
                &&& if self.excludes@.len() > 0 {
                    &&& now.phase == ListPhase::Excluding
                    &&& now.files.items() == left
                    &&& action == ListAction::<E>::MatchExcludes
                } else {
                    &&& now.phase == ListPhase::Finished
                    &&& action matches ListAction::Finish(Ok(f))
                    &&& f.items() == left
                }
            } else {
                now == self && action == ListAction::<E>::Refuse
            },
            (ListPhase::Excluding, ListEvent::Matched(Ok(matched))) => {
                &&& now == same
                &&& now.phase == ListPhase::Finished
                &&& action matches ListAction::Finish(Ok(f))
                &&& f.items() == path::flagged(
                    self.files.items(),
                    not_among(self.files.items(), path::views(matched@)),
                )
            },
            (ListPhase::Fetching, ListEvent::Fetched(Err(e))) => {
                &&& now == (FileListing { phase: ListPhase::Finished, ..self })
                &&& action == ListAction::<E>::Finish(Err(e))
            },
            (ListPhase::Matching, ListEvent::Matched(Err(e))) => {
                &&& now == (FileListing { phase: ListPhase::Finished, ..self })
                &&& action == ListAction::<E>::Finish(Err(e))
            },
            (ListPhase::Excluding, ListEvent::Matched(Err(e))) => {
                &&& now == (FileListing { phase: ListPhase::Finished, ..self })
                &&& action == ListAction::<E>::Finish(Err(e))
            },
            _ => now == self && action == ListAction::<E>::Refuse,
        }
    }

    /// Starts to list the files, by fetching those of the source.
    pub fn start<E>(
        opts: &HookOptions,
        settings_exclude: &Vec<String>,
        stash: bool,
        status: RepoStatus,
    ) -> (r: (FileListing, ListAction<E>))
        ensures
            r.0.source == source_of(*opts, stash),
            r.0.status == status,
            text::texts(r.0.excludes@) == all_expanded(
                exclude_patterns(settings_exclude@, opts.exclude),
            ),
            r.0.phase == ListPhase::Fetching,
            r.0.files.items().len() == 0,
            r.1 == ListAction::<E>::Fetch(source_of(*opts, stash)),
    {
        let source = file_source(opts, stash);
        (
            FileListing {
                source,
                status,
                excludes: expand_excludes(settings_exclude, &opts.exclude),
                phase: ListPhase::Fetching,
                files: FileSet::new(),
            },
            ListAction::Fetch(source),
        )
    }

    fn go<E>(self, phase: ListPhase, files: FileSet, action: ListAction<E>) -> (r: (
        FileListing,
        ListAction<E>,
    ))
        ensures
            r.0 == (FileListing { phase, files, ..self }),
            r.1 == action,
    {
        (
            FileListing {
                source: self.source,
                status: self.status,
                excludes: self.excludes,
                phase,
                files,
            },
            action,
        )
    }

    fn fail<E>(self, e: E) -> (r: (FileListing, ListAction<E>))
        ensures
            r.0 == (FileListing { phase: ListPhase::Finished, ..self }),
            r.1 == ListAction::<E>::Finish(Err(e)),
    {
        (
            FileListing {
                source: self.source,
                status: self.status,
                excludes: self.excludes,
                phase: ListPhase::Finished,
                files: self.files,
            },
            ListAction::Finish(Err(e)),
        )
    }

    /// Takes the listing on by an event, and says what to do next.
    pub fn step<E>(self, event: ListEvent<E>) -> (r: (FileListing, ListAction<E>))
        ensures
            self.follows(event, r.0, r.1),
    {
        match (self.phase, event) {
            (ListPhase::Fetching, ListEvent::Fetched(Ok(fetched))) => {
                let list = candidate_files(self.source, fetched, &self.status);
                match self.source {
                    FileSource::Matching { untracked: _ } => (
                        FileListing {
                            source: self.source,
                            status: self.status,
                            excludes: self.excludes,
                            phase: ListPhase::Matching,
                            files: self.files,
                        },
                        ListAction::Match(list),
                    ),
                    _ => {
                        let files = cleaned(&list);
                        self.go(ListPhase::Statting, files, ListAction::Stat)
                    },
                }
            },
            (ListPhase::Matching, ListEvent::Matched(Ok(matched))) => {
                let files = cleaned(&matched);
                self.go(ListPhase::Statting, files, ListAction::Stat)
            },
            (ListPhase::Statting, ListEvent::Stats(stats)) => {
                if stats.len() != self.files.len() {
                    return (self, ListAction::Refuse);
                }
                let files = without_directories(&self.files, &stats);
                if self.excludes.len() > 0 {
                    self.go(ListPhase::Excluding, files, ListAction::MatchExcludes)
                } else {
                    self.go(ListPhase::Finished, FileSet::new(), ListAction::Finish(Ok(files)))
                }
            },
            (ListPhase::Excluding, ListEvent::Matched(Ok(matched))) => {
                let files = without_excluded(&self.files, &matched);
                self.go(ListPhase::Finished, FileSet::new(), ListAction::Finish(Ok(files)))
            },
            (ListPhase::Fetching, ListEvent::Fetched(Err(e))) => self.fail(e),
            (ListPhase::Matching, ListEvent::Matched(Err(e))) => self.fail(e),
            (ListPhase::Excluding, ListEvent::Matched(Err(e))) => self.fail(e),
            _ => (self, ListAction::Refuse),
        }
    }
}

/// Whether an item of a list is flagged.
pub open spec fn is_flagged(items: Seq<PathView>, keep: Seq<bool>, p: PathView) -> bool {
    exists|i: int| 0 <= i < items.len() && keep[i] && #[trigger] items[i] == p
}

/// What is left of a list by flags is what was flagged, and nothing else.
pub(crate) proof fn lemma_flagged(items: Seq<PathView>, keep: Seq<bool>)
    requires
        items.len() == keep.len(),
    ensures
        forall|j: int|
            0 <= j < path::flagged(items, keep).len() ==> is_flagged(
                items,
                keep,
                #[trigger] path::flagged(items, keep)[j],
            ),
        forall|i: int|
            0 <= i < items.len() && keep[i] ==> path::flagged(items, keep).contains(
                #[trigger] items[i],
            ),
    decreases items.len(),
{
    if items.len() > 0 {
        let a = items.drop_last();
        let k = keep.drop_last();
        let rest = path::flagged(a, k);
        let all = path::flagged(items, keep);
        lemma_flagged(a, k);
        assert forall|j: int| 0 <= j < all.len() implies is_flagged(
            items,
            keep,
            #[trigger] all[j],
        ) by {
            if j < rest.len() {
                assert(all[j] == rest[j]);
                assert(is_flagged(a, k, rest[j]));
                let i = choose|i: int| 0 <= i < a.len() && k[i] && #[trigger] a[i] == rest[j];
                assert(items[i] == all[j]);
            } else {
                assert(items[items.len() - 1] == all[j]);
            }
        }
        assert forall|i: int| 0 <= i < items.len() && keep[i] implies all.contains(
            #[trigger] items[i],
        ) by {
            if i < a.len() {
                assert(k[i] && a[i] == items[i]);
                assert(rest.contains(a[i]));
                let j = choose|j: int| 0 <= j < rest.len() && rest[j] == a[i];
                assert(all[j] == items[i]);
            } else {
                assert(all[all.len() - 1] == items[i]);
            }
        }
    }
}

/// No file that is to be left out is listed, and every other one is.
pub proof fn excluded_files_are_left_out<E>(
    listing: FileListing,
    matched: Vec<FilePath>,
    now: FileListing,
    files: FileSet,
)
    requires
        listing.phase == ListPhase::Excluding,
        listing.follows(
            ListEvent::<E>::Matched(Ok(matched)),
            now,
            ListAction::<E>::Finish(Ok(files)),
        ),
    ensures
        forall|j: int|
            0 <= j < files.items().len() ==> !path::has_path(
                path::views(matched@),
                #[trigger] files.items()[j],
            ),
        forall|i: int|
            0 <= i < listing.files.items().len() && !path::has_path(
                path::views(matched@),
                listing.files.items()[i],
            ) ==> files.items().contains(#[trigger] listing.files.items()[i]),
{
    let items = listing.files.items();
    let keep = not_among(items, path::views(matched@));
    lemma_flagged(items, keep);
    assert forall|j: int| 0 <= j < files.items().len() implies !path::has_path(
        path::views(matched@),
        #[trigger] files.items()[j],
    ) by {
        assert(is_flagged(items, keep, files.items()[j]));
        let i = choose|i: int|
            0 <= i < items.len() && keep[i] && #[trigger] items[i] == files.items()[j];
        assert(keep[i]);
    }
    assert forall|i: int|
        0 <= i < items.len() && !path::has_path(path::views(matched@), items[i]) implies
        files.items().contains(#[trigger] items[i]) by {
        assert(keep[i]);
    }
}

/// Of the files that were found, those stay that are neither directories nor links to directories,
/// and only those: deleted files and links that lead nowhere do.
pub proof fn only_directories_are_dropped(items: Seq<PathView>, stats: Seq<PathStat>)
    requires
        items.len() == stats.len(),
    ensures
        forall|j: int|
            0 <= j < path::flagged(items, workable(stats)).len() ==> is_flagged(
                items,
                workable(stats),
                #[trigger] path::flagged(items, workable(stats))[j],
            ),
        forall|i: int|
            0 <= i < items.len() && is_workable(stats[i]) ==> path::flagged(
                items,
                workable(stats),
            ).contains(#[trigger] items[i]),
{
    let keep = workable(stats);
    let left = path::flagged(items, keep);
    lemma_flagged(items, keep);
    assert forall|i: int| 0 <= i < items.len() && is_workable(stats[i]) implies left.contains(
        #[trigger] items[i],
    ) by {
        assert(keep[i]);
    }
}

/// A plain pattern for leaving files out covers what is in the directory of that name.
pub proof fn plain_pattern_covers_directory(patterns: Seq<Seq<char>>, i: int)
    requires
        0 <= i < patterns.len(),
        !is_glob(patterns[i]),
    ensures
        all_expanded(patterns).contains(patterns[i]),
        all_expanded(patterns).contains(patterns[i] + "/*"@),
        all_expanded(patterns).contains(patterns[i] + "/**"@),
    decreases patterns.len(),
{
    let rest = all_expanded(patterns.drop_last());
    let last = expanded(patterns.last());
    let all = rest + last;
    if i == patterns.len() - 1 {
        let at = rest.len() as int;
        assert(all[at] == patterns[i]);
        assert(all[at + 1] == patterns[i] + "/*"@);
        assert(all[at + 2] == patterns[i] + "/**"@);
    } else {
        plain_pattern_covers_directory(patterns.drop_last(), i);
        assert forall|p: Seq<char>| rest.contains(p) implies #[trigger] all.contains(p) by {
            let k = choose|k: int| 0 <= k < rest.len() && rest[k] == p;
            assert(all[k] == p);
        }
    }
}

} // verus!
