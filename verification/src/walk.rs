//! The files below a directory.
use crate::component::PathView;
use crate::path::{self, FilePath};
use vstd::prelude::*;

verus! {

/// Something that a directory holds.
#[derive(Clone, Debug)]
pub struct Entry {
    pub path: FilePath,
    pub is_dir: bool,
}

/// What a walk comes upon, as paths.
pub open spec fn entry_views(entries: Seq<Entry>) -> Seq<(PathView, bool)> {
    Seq::new(entries.len(), |i: int| (entries[i].path@, entries[i].is_dir))
}

/// What to do next in a walk.
#[derive(Debug)]
pub enum WalkAction<E> {
    /// List what a directory holds.
    List(FilePath),
    /// Return.
    Finish(Result<Vec<FilePath>, E>),
}

/// A walk through directories.
#[derive(Debug)]
pub struct DirWalk {
    /// What is still to be visited; the last entry comes next.
    pub pending: Vec<Entry>,
    /// The files that were found, in order.
    pub files: Vec<FilePath>,
}

/// How many entries at the end of a list are no directories.
pub open spec fn plain_len(entries: Seq<(PathView, bool)>) -> nat
    decreases entries.len(),
{
    if entries.len() == 0 || entries.last().1 {
        0
    } else {
        1 + plain_len(entries.drop_last())
    }
}

/// The paths of the last `n` entries, the last one first.
pub open spec fn last_paths(entries: Seq<(PathView, bool)>, n: nat) -> Seq<PathView>
    decreases n,
{
    if n == 0 || entries.len() == 0 {
        Seq::empty()
    } else {
        seq![entries.last().0] + last_paths(entries.drop_last(), (n - 1) as nat)
    }
}

proof fn lemma_plain_len(entries: Seq<(PathView, bool)>)
    ensures
        plain_len(entries) <= entries.len(),
        plain_len(entries) < entries.len() ==> entries[entries.len() - 1 - plain_len(entries)].1,
    decreases entries.len(),
{
    if entries.len() > 0 && !entries.last().1 {
        lemma_plain_len(entries.drop_last());
    }
}

/// Whether `now` and `action` are how a walk goes on from what is to be visited and what was found:
/// it takes what is no directory, up to the next directory.
pub open spec fn goes_on<E>(
    pending: Seq<(PathView, bool)>,
    files: Seq<PathView>,
    now: DirWalk,
    action: WalkAction<E>,
) -> bool {
    let n = plain_len(pending);
    let found = files + last_paths(pending, n);
    if n < pending.len() {
        let at = pending.len() - 1 - n;
        &&& entry_views(now.pending@) == pending.take(at)
        &&& path::views(now.files@) == found
        &&& action matches WalkAction::List(p)
        &&& p@ == pending[at].0
    } else {
        &&& now.pending@.len() == 0
        &&& now.files@.len() == 0
        &&& action matches WalkAction::Finish(Ok(list))
        &&& path::views(list@) == found
    }
}

/// What is to be visited once a directory is listed: its entries come next, in their order.
pub open spec fn with_listed(
    pending: Seq<(PathView, bool)>,
    listed: Seq<(PathView, bool)>,
) -> Seq<(PathView, bool)> {
    pending + listed.reverse()
}

impl DirWalk {
    fn go_on<E>(self) -> (r: (DirWalk, WalkAction<E>))
        ensures
            goes_on(entry_views(self.pending@), path::views(self.files@), r.0, r.1),
    {
        let DirWalk { mut pending, mut files } = self;
        let ghost all = entry_views(pending@);
        let ghost start = path::views(files@);
        let ghost total = start + last_paths(all, plain_len(all));
        assert(all.take(all.len() as int) =~= all);
        loop
            invariant
                pending@.len() <= all.len(),
                all == entry_views(self.pending@),
                start == path::views(self.files@),
                total == start + last_paths(all, plain_len(all)),
                entry_views(pending@) == all.take(pending@.len() as int),
                plain_len(all) == all.len() - pending@.len() + plain_len(entry_views(pending@)),
                path::views(files@) + last_paths(
                    entry_views(pending@),
                    plain_len(entry_views(pending@)),
                ) == total,
            decreases pending@.len(),
        {
            let ghost now = entry_views(pending@);
            let ghost found = path::views(files@);
            match pending.pop() {
                None => {
                    assert(path::views(files@) + last_paths(now, 0) =~= found);
                    let rest = DirWalk { pending, files: Vec::new() };
                    return (rest, WalkAction::Finish(Ok(files)));
                },
                Some(entry) => {
                    proof {
                        assert(now.last() == (entry.path@, entry.is_dir));
                        assert(entry_views(pending@) =~= now.drop_last());
                        assert(now.drop_last() =~= all.take(pending@.len() as int));
                    }
                    if entry.is_dir {
                        assert(path::views(files@) + last_paths(now, 0) =~= found);
                        assert(all[pending@.len() as int] == now.last());
                        return (DirWalk { pending, files }, WalkAction::List(entry.path));
                    }
                    let ghost p = entry.path@;
                    files.push(entry.path);
                    proof {
                        let rest = entry_views(pending@);
                        let k = plain_len(rest);
                        assert(path::views(files@) =~= found.push(p));
                        assert(found.push(p) + last_paths(rest, k) =~= found + (seq![p]
                            + last_paths(rest, k)));
                    }
                },
            }
        }
    }

    /// Takes the walk on by what the directory holds that was asked for.
    pub fn step<E>(self, listed: Result<Vec<Entry>, E>) -> (r: (DirWalk, WalkAction<E>))
        ensures
            match listed {
                Ok(entries) => goes_on(
                    with_listed(entry_views(self.pending@), entry_views(entries@)),
                    path::views(self.files@),
                    r.0,
                    r.1,
                ),
                Err(e) => r.0 == self && r.1 == WalkAction::<E>::Finish(Err(e)),
            },
    {
        match listed {
            Err(e) => (self, WalkAction::Finish(Err(e))),
            Ok(mut entries) => {
                let ghost held = entry_views(entries@);
                let DirWalk { mut pending, files } = self;
                let ghost before = entry_views(pending@);
                assert(held.take(held.len() as int) =~= held);
                while entries.len() > 0
                    invariant
                        entries@.len() <= held.len(),
                        entry_views(entries@) == held.take(entries@.len() as int),
                        entry_views(pending@) == before + held.skip(
                            entries@.len() as int,
                        ).reverse(),
                    decreases entries@.len(),
                {
                    let ghost done = entry_views(pending@);
                    let ghost n = entries@.len() as int;
                    let ghost last = entry_views(entries@).last();
                    let entry = entries.pop().unwrap();
                    assert((entry.path@, entry.is_dir) == last);
                    pending.push(entry);
                    proof {
                        assert(entry_views(entries@) =~= held.take(n - 1));
                        assert(entry_views(pending@) =~= done.push(held[n - 1]));
                        assert(held.skip(n - 1) =~= seq![held[n - 1]] + held.skip(n));
                        assert(held.skip(n - 1).reverse() =~= held.skip(n).reverse().push(
                            held[n - 1],
                        ));
                    }
                }
                proof {
                    assert(held.skip(0) =~= held);
                    assert(entry_views(pending@) =~= with_listed(before, held));
                }
                DirWalk { pending, files }.go_on()
            },
        }
    }
}

/// Starts to find the files below a directory.
pub fn all_files_in_dir<E>(dir: FilePath) -> (r: (DirWalk, WalkAction<E>))
    ensures
        r.0.pending@.len() == 0,
        r.0.files@.len() == 0,
        r.1 == WalkAction::<E>::List(dir),
{
    (DirWalk { pending: Vec::new(), files: Vec::new() }, WalkAction::List(dir))
}

/// The paths of what a walk came upon that is a plain file, in order.
pub fn plain_files(found: &Vec<(FilePath, bool)>) -> (r: Vec<FilePath>)
    ensures
        path::views(r@) == path::flagged(
            Seq::new(found@.len(), |i: int| found@[i].0@),
            Seq::new(found@.len(), |i: int| found@[i].1),
        ),
{
    let ghost paths = Seq::new(found@.len(), |i: int| found@[i].0@);
    let ghost plain = Seq::new(found@.len(), |i: int| found@[i].1);
    let mut r: Vec<FilePath> = Vec::new();
    let mut i: usize = 0;
    assert(path::views(r@) =~= path::flagged(paths.take(0), plain.take(0)));
    while i < found.len()
        invariant
            i <= found@.len(),
            paths == Seq::new(found@.len(), |i: int| found@[i].0@),
            plain == Seq::new(found@.len(), |i: int| found@[i].1),
            path::views(r@) == path::flagged(paths.take(i as int), plain.take(i as int)),
        decreases found@.len() - i,
    {
        proof {
            assert(paths.take(i + 1).drop_last() =~= paths.take(i as int));
            assert(plain.take(i + 1).drop_last() =~= plain.take(i as int));
        }
        let ghost before = r@;
        if found[i].1 {
            r.push(found[i].0.copy());
            assert(path::views(r@) =~= path::views(before).push(paths[i as int]));
        }
        i = i + 1;
    }
    assert(paths.take(i as int) =~= paths);
    assert(plain.take(i as int) =~= plain);
    r
}

/// Something that a directory holds, with all that is below it.
pub enum Tree {
    File(PathView),
    Dir(PathView, Seq<Tree>),
}

/// The path of something that a directory holds, and whether it is a directory.
pub open spec fn top(t: Tree) -> (PathView, bool) {
    match t {
        Tree::File(p) => (p, false),
        Tree::Dir(p, _) => (p, true),
    }
}

/// The paths and kinds of what a directory holds.
pub open spec fn tops(trees: Seq<Tree>) -> Seq<(PathView, bool)> {
    Seq::new(trees.len(), |i: int| top(trees[i]))
}

/// The files of trees, those of each tree together, in order.
pub open spec fn files_below(trees: Seq<Tree>) -> Seq<PathView>
    decreases trees,
{
    if trees.len() == 0 {
        Seq::empty()
    } else {
        (match trees[0] {
            Tree::File(p) => seq![p],
            Tree::Dir(_, held) => files_below(held),
        }) + files_below(trees.drop_first())
    }
}

proof fn lemma_files_below(a: Seq<Tree>, b: Seq<Tree>)
    ensures
        files_below(a + b) == files_below(a) + files_below(b),
    decreases a.len(),
{
    if a.len() == 0 {
        assert(a + b =~= b);
        assert(files_below(a) + files_below(b) =~= files_below(b));
    } else {
        lemma_files_below(a.drop_first(), b);
        assert((a + b).drop_first() =~= a.drop_first() + b);
        assert((a + b)[0] == a[0]);
        assert(files_below(a + b) =~= files_below(a) + files_below(b));
    }
}

/// The entries at the end that are no directories are the files that come first.
proof fn lemma_plain_files(forest: Seq<Tree>, n: nat)
    requires
        n <= plain_len(tops(forest)),
    ensures
        n <= forest.len(),
        files_below(forest.reverse()) == last_paths(tops(forest), n) + files_below(
            forest.take(forest.len() - n).reverse(),
        ),
    decreases n,
{
    lemma_plain_len(tops(forest));
    if n == 0 {
        assert(forest.take(forest.len() as int) =~= forest);
        assert(last_paths(tops(forest), 0) + files_below(forest.reverse()) =~= files_below(
            forest.reverse(),
        ));
    } else {
        let rest = forest.drop_last();
        assert(tops(forest).drop_last() =~= tops(rest));
        lemma_plain_files(rest, (n - 1) as nat);
        assert(rest.take(rest.len() - (n - 1)) =~= forest.take(forest.len() - n));
        assert(forest.reverse().drop_first() =~= rest.reverse());
        assert(forest.reverse()[0] == forest.last());
        assert(tops(forest).last() == top(forest.last()));
        assert(files_below(forest.reverse()) =~= last_paths(tops(forest), n) + files_below(
            forest.take(forest.len() - n).reverse(),
        ));
    }
}

/// A walk that returns has found every file below what it had to visit, in order, and nothing
/// else.
pub proof fn finished_walk_has_found_all<E>(
    forest: Seq<Tree>,
    files: Seq<PathView>,
    now: DirWalk,
    action: WalkAction<E>,
)
    requires
        goes_on(tops(forest), files, now, action),
        action is Finish,
    ensures
        action matches WalkAction::Finish(Ok(list)) && path::views(list@) == files + files_below(
            forest.reverse(),
        ),
{
    lemma_plain_len(tops(forest));
    lemma_plain_files(forest, plain_len(tops(forest)));
    assert(forest.take(0).reverse() =~= Seq::empty());
    assert(files_below(Seq::<Tree>::empty()) =~= Seq::empty());
    let n = plain_len(tops(forest));
    assert(last_paths(tops(forest), n) + Seq::<PathView>::empty() =~= last_paths(tops(forest), n));
}

/// A walk loses no file and finds none twice: once the directory that it asks for is listed, what
/// was found and what is to be found are together the same as before.
pub proof fn listing_loses_no_file<E>(
    forest: Seq<Tree>,
    files: Seq<PathView>,
    now: DirWalk,
    action: WalkAction<E>,
) -> (r: (Seq<Tree>, Seq<Tree>))
    requires
        goes_on(tops(forest), files, now, action),
        action is List,
    ensures
        ({
            let (held, left) = r;
            &&& forest.contains(Tree::Dir(action->List_0@, held))
            &&& with_listed(entry_views(now.pending@), tops(held)) == tops(left)
            &&& path::views(now.files@) + files_below(left.reverse()) == files + files_below(
                forest.reverse(),
            )
        }),
{
    let n = plain_len(tops(forest));
    lemma_plain_len(tops(forest));
    lemma_plain_files(forest, n);
    let at = forest.len() - 1 - n;
    let dir = forest[at];
    assert(tops(forest)[at] == top(dir));
    let held = dir->Dir_1;
    let before = forest.take(at);
    let left = before + held.reverse();
    assert(dir == Tree::Dir(action->List_0@, held));
    assert(tops(forest).take(at) =~= tops(before));
    assert(with_listed(tops(before), tops(held)) =~= tops(left));
    assert(left.reverse() =~= held + before.reverse());
    lemma_files_below(held, before.reverse());
    let rest = forest.take(forest.len() - n).reverse();
    assert(rest[0] == dir);
    assert(rest.drop_first() =~= before.reverse());
    assert(files_below(rest) == files_below(held) + files_below(before.reverse()));
    let found = last_paths(tops(forest), n);
    assert((files + found) + files_below(left.reverse()) =~= files + (found + files_below(rest)));
    (held, left)
}

} // verus!
