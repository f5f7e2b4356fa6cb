//! Which files are listed, told from the options and the status of the repository.
use crate::component::PathView;
use crate::files::{self, FileListing, ListAction, ListEvent, ListPhase, PathStat};
use crate::options::HookOptions;
use crate::path::{self, FilePath};
use vstd::prelude::*;
use vstd::utf8::valid_utf8;

verus! {

/// The paths of a list of files.
pub open spec fn paths(list: Seq<FilePath>) -> Seq<PathView> {
    Seq::new(list.len(), |i: int| list[i]@)
}

/// Whether `bare` is a path freed of a leading `./`, where it is a valid text that has one.
#[verifier::opaque]
pub open spec fn is_bare(bare: PathView, p: PathView) -> bool {
    &&& bare.style == p.style
    &&& if valid_utf8(p.bytes) && seq![46u8, 47u8].is_prefix_of(p.bytes) {
        p.bytes == seq![46u8, 47u8] + bare.bytes
    } else {
        bare.bytes == p.bytes
    }
}

/// Whether two paths are the same once the second is freed of a leading `./`.
pub open spec fn is_bare_form(p: PathView, of: PathView) -> bool {
    exists|bare: PathView| #[trigger] is_bare(bare, of) && path::same_path(p, bare)
}

/// Whether a path is one of a list, freed of a leading `./`.
pub open spec fn comes_from(p: PathView, list: Seq<PathView>) -> bool {
    exists|i: int| 0 <= i < list.len() && is_bare(p, #[trigger] list[i])
}

/// Whether some spelling in which a list has a path is, freed of a leading `./`, among the files.
pub open spec fn is_covered(p: PathView, files: Seq<PathView>, list: Seq<PathView>) -> bool {
    exists|i: int, j: int|
        {
            &&& 0 <= i < list.len()
            &&& 0 <= j < files.len()
            &&& path::same_path(p, #[trigger] list[i])
            &&& is_bare_form(#[trigger] files[j], list[i])
        }
}

/// Whether files are exactly those of a list, freed of a leading `./`: each of them comes from the
/// list, and each path of the list is among them.
pub open spec fn are_those_of(files: Seq<PathView>, list: Seq<PathView>) -> bool {
    &&& forall|j: int| 0 <= j < files.len() ==> comes_from(#[trigger] files[j], list)
    &&& forall|i: int| 0 <= i < list.len() ==> #[trigger] is_covered(list[i], files, list)
}

/// Freeing a path of a leading `./` takes that and nothing else.
pub proof fn leading_dot_is_taken_away(p: PathView)
    ensures
        is_bare(path::without_dot(p), p),
        forall|bare: PathView| #[trigger] is_bare(bare, p) ==> bare == path::without_dot(p),
{
    reveal(is_bare);
    let dot = seq![46u8, 47u8];
    if valid_utf8(p.bytes) && dot.is_prefix_of(p.bytes) {
        assert(dot[0] == p.bytes[0]);
        assert(dot[1] == p.bytes[1]);
        assert(p.bytes =~= dot + p.bytes.skip(2));
    } else if p.bytes.len() >= 2 && p.bytes[0] == 46u8 && p.bytes[1] == 47u8 {
        assert(dot =~= p.bytes.subrange(0, 2));
    }
    assert forall|bare: PathView| #[trigger] is_bare(bare, p) implies bare == path::without_dot(
        p,
    ) by {
        if valid_utf8(p.bytes) && dot.is_prefix_of(p.bytes) {
            assert((dot + bare.bytes).skip(2) =~= bare.bytes);
        }
    }
}

proof fn lemma_member(set: Seq<PathView>, list: Seq<PathView>, j: int) -> (i: int)
    requires
        path::is_set_of(set, list),
        0 <= j < set.len(),
    ensures
        0 <= i < list.len(),
        list[i] == set[j],
{
    assert(list.contains(set[j]));
    choose|i: int| 0 <= i < list.len() && list[i] == set[j]
}

proof fn lemma_present(set: Seq<PathView>, list: Seq<PathView>, i: int) -> (j: int)
    requires
        path::is_set_of(set, list),
        0 <= i < list.len(),
    ensures
        0 <= j < set.len(),
        path::same_path(set[j], list[i]),
{
    assert(path::has_path(set, list[i]));
    choose|j: int| 0 <= j < set.len() && path::same_path(#[trigger] set[j], list[i])
}

proof fn lemma_comes_from(items: Seq<PathView>, list: Seq<PathView>, j: int)
    requires
        files::is_cleaned(items, list),
        0 <= j < items.len(),
    ensures
        comes_from(items[j], list),
{
    let set = choose|set: Seq<PathView>| #[trigger]
        path::is_set_of(set, list) && path::is_set_of(items, files::without_dots(set));
    let k = lemma_member(items, files::without_dots(set), j);
    let i = lemma_member(set, list, k);
    leading_dot_is_taken_away(list[i]);
    assert(is_bare(items[j], list[i]));
}

proof fn lemma_covered(items: Seq<PathView>, list: Seq<PathView>, i: int)
    requires
        files::is_cleaned(items, list),
        0 <= i < list.len(),
    ensures
        is_covered(list[i], items, list),
{
    let set = choose|set: Seq<PathView>| #[trigger]
        path::is_set_of(set, list) && path::is_set_of(items, files::without_dots(set));
    let k = lemma_present(set, list, i);
    let m = lemma_member(set, list, k);
    let j = lemma_present(items, files::without_dots(set), k);
    leading_dot_is_taken_away(list[m]);
    assert(is_bare(files::without_dots(set)[k], list[m]));
    assert(is_bare_form(items[j], list[m]));
    assert(path::same_path(list[i], list[m]));
}

proof fn lemma_cleaned(items: Seq<PathView>, list: Seq<PathView>)
    requires
        files::is_cleaned(items, list),
    ensures
        are_those_of(items, list),
{
    assert forall|j: int| 0 <= j < items.len() implies comes_from(#[trigger] items[j], list) by {
        lemma_comes_from(items, list, j);
    }
    assert forall|i: int| 0 <= i < list.len() implies #[trigger] is_covered(list[i], items, list) by {
        lemma_covered(items, list, i);
    }
}

/// Where neither files, nor patterns, nor revisions, nor all files are asked for and changes are
/// put aside, the files are the staged ones: no file that is only changed or untracked is among
/// them.
pub proof fn staged_files_are_listed<E>(
    opts: HookOptions,
    listing: FileListing,
    fetched: Vec<FilePath>,
    now: FileListing,
    action: ListAction<E>,
)
    requires
        opts.files is None,
        opts.glob is None,
        opts.from_ref is None,
        !opts.all,
        listing.source == files::source_of(opts, true),
        listing.phase == ListPhase::Fetching,
        listing.follows(ListEvent::Fetched(Ok(fetched)), now, action),
    ensures
        action is Stat,
        are_those_of(now.files.items(), paths(listing.status.staged@)),
{
    let list = paths(listing.status.staged@);
    assert(list =~= path::views(listing.status.staged@));
    lemma_cleaned(now.files.items(), list);
}

/// Whether no path stands in a list under two spellings.
pub open spec fn is_spelled_once(list: Seq<PathView>) -> bool {
    forall|i: int, k: int|
        0 <= i < list.len() && 0 <= k < list.len() && path::same_path(
            #[trigger] list[i],
            #[trigger] list[k],
        ) ==> list[i] == list[k]
}

/// Where the staged files are listed, a path is among them exactly where it is, up to a leading
/// `./`, the same as a staged one, given that the status spells each path in one way.
pub proof fn path_is_listed_where_it_is_staged<E>(
    opts: HookOptions,
    listing: FileListing,
    fetched: Vec<FilePath>,
    now: FileListing,
    action: ListAction<E>,
    p: PathView,
)
    requires
        opts.files is None,
        opts.glob is None,
        opts.from_ref is None,
        !opts.all,
        listing.source == files::source_of(opts, true),
        listing.phase == ListPhase::Fetching,
        listing.follows(ListEvent::Fetched(Ok(fetched)), now, action),
        is_spelled_once(paths(listing.status.staged@)),
    ensures
        (exists|j: int|
            0 <= j < now.files.items().len() && path::same_path(
                #[trigger] now.files.items()[j],
                p,
            )) <==> (exists|i: int|
            0 <= i < listing.status.staged@.len() && is_bare_form(
                p,
                (#[trigger] listing.status.staged@[i])@,
            )),
{
    let items = now.files.items();
    let staged = listing.status.staged@;
    let list = paths(staged);
    staged_files_are_listed(opts, listing, fetched, now, action);
    if exists|j: int| 0 <= j < items.len() && path::same_path(#[trigger] items[j], p) {
        let j = choose|j: int| 0 <= j < items.len() && path::same_path(#[trigger] items[j], p);
        assert(comes_from(items[j], list));
        let i = choose|i: int| 0 <= i < list.len() && is_bare(items[j], #[trigger] list[i]);
        assert(is_bare(items[j], staged[i]@));
        assert(is_bare_form(p, staged[i]@));
    }
    if exists|i: int| 0 <= i < staged.len() && is_bare_form(p, (#[trigger] staged[i])@) {
        let i = choose|i: int| 0 <= i < staged.len() && is_bare_form(p, (#[trigger] staged[i])@);
        assert(is_covered(list[i], items, list));
        let (k, j) = choose|k: int, j: int|
            {
                &&& 0 <= k < list.len()
                &&& 0 <= j < items.len()
                &&& path::same_path(list[i], #[trigger] list[k])
                &&& is_bare_form(#[trigger] items[j], list[k])
            };
        assert(list[k] == list[i]);
        leading_dot_is_taken_away(list[i]);
        assert(path::same_path(items[j], p));
    }
}

/// Where none of these is asked for and changes are not put aside, the files are the staged, the
/// changed and the untracked ones.
pub proof fn changed_files_are_listed<E>(
    opts: HookOptions,
    listing: FileListing,
    fetched: Vec<FilePath>,
    now: FileListing,
    action: ListAction<E>,
)
    requires
        opts.files is None,
        opts.glob is None,
        opts.from_ref is None,
        !opts.all,
        listing.source == files::source_of(opts, false),
        listing.phase == ListPhase::Fetching,
        listing.follows(ListEvent::Fetched(Ok(fetched)), now, action),
    ensures
        action is Stat,
        are_those_of(
            now.files.items(),
            paths(listing.status.staged@) + paths(listing.status.unstaged@) + paths(
                listing.status.untracked@,
            ),
        ),
{
    let status = listing.status;
    assert(paths(status.staged@) =~= path::views(status.staged@));
    assert(paths(status.unstaged@) =~= path::views(status.unstaged@));
    assert(paths(status.untracked@) =~= path::views(status.untracked@));
    lemma_cleaned(
        now.files.items(),
        paths(status.staged@) + paths(status.unstaged@) + paths(status.untracked@),
    );
}

/// Where files are named, they are the ones that are listed, whatever else is asked for.
pub proof fn named_files_are_listed<E>(
    opts: HookOptions,
    stash: bool,
    listing: FileListing,
    fetched: Vec<FilePath>,
    now: FileListing,
    action: ListAction<E>,
)
    requires
        opts.files is Some,
        listing.source == files::source_of(opts, stash),
        listing.phase == ListPhase::Fetching,
        listing.follows(ListEvent::Fetched(Ok(fetched)), now, action),
    ensures
        listing.source is Named,
        action is Stat,
        are_those_of(now.files.items(), paths(fetched@)),
{
    assert(paths(fetched@) =~= path::views(fetched@));
    lemma_cleaned(now.files.items(), paths(fetched@));
}

/// Where patterns are given, they are matched against the files of the repository, and against the
/// untracked ones too where changes are not put aside; those that match are the ones listed.
pub proof fn matching_files_are_listed<E>(
    opts: HookOptions,
    stash: bool,
    listing: FileListing,
    fetched: Vec<FilePath>,
    mid: FileListing,
    action: ListAction<E>,
    matched: Vec<FilePath>,
    now: FileListing,
    next: ListAction<E>,
)
    requires
        opts.files is None,
        opts.glob is Some,
        listing.source == files::source_of(opts, stash),
        listing.phase == ListPhase::Fetching,
        listing.follows(ListEvent::Fetched(Ok(fetched)), mid, action),
        mid.follows(ListEvent::Matched(Ok(matched)), now, next),
    ensures
        action matches ListAction::Match(m) && paths(m@) == if stash {
            paths(fetched@)
        } else {
            paths(fetched@) + paths(listing.status.untracked@)
        },
        next is Stat,
        are_those_of(now.files.items(), paths(matched@)),
{
    let status = listing.status;
    assert(paths(fetched@) =~= path::views(fetched@));
    assert(paths(matched@) =~= path::views(matched@));
    assert(paths(status.untracked@) =~= path::views(status.untracked@));
    if let ListAction::Match(m) = action {
        assert(paths(m@) =~= path::views(m@));
    }
    lemma_cleaned(now.files.items(), paths(matched@));
}

/// Where revisions are given, the files that changed between them are listed; but none where the
/// second one stands for a branch that is deleted.
pub proof fn files_between_revisions_are_listed<E>(
    opts: HookOptions,
    stash: bool,
    listing: FileListing,
    fetched: Vec<FilePath>,
    now: FileListing,
    action: ListAction<E>,
)
    requires
        opts.files is None,
        opts.glob is None,
        opts.from_ref is Some,
        listing.source == files::source_of(opts, stash),
        listing.phase == ListPhase::Fetching,
        listing.follows(ListEvent::Fetched(Ok(fetched)), now, action),
    ensures
        action is Stat,
        opts.to_ref is Some && opts.to_ref->0@ == "0000000000000000000000000000000000000000"@
            ==> listing.source is Nothing && now.files.items().len() == 0,
        opts.to_ref is None || opts.to_ref->0@ != "0000000000000000000000000000000000000000"@
            ==> listing.source is BetweenRevisions && are_those_of(
            now.files.items(),
            paths(fetched@),
        ),
{
    assert(paths(fetched@) =~= path::views(fetched@));
    if listing.source is Nothing {
        lemma_cleaned(now.files.items(), Seq::empty());
        if now.files.items().len() > 0 {
            assert(comes_from(now.files.items()[0], Seq::empty()));
        }
    } else {
        lemma_cleaned(now.files.items(), paths(fetched@));
    }
}

/// Where all files are asked for, and nothing more particular is, those of the repository are
/// listed, and the untracked ones too where changes are not put aside.
pub proof fn all_files_are_listed<E>(
    opts: HookOptions,
    stash: bool,
    listing: FileListing,
    fetched: Vec<FilePath>,
    now: FileListing,
    action: ListAction<E>,
)
    requires
        opts.files is None,
        opts.glob is None,
        opts.from_ref is None,
        opts.all,
        listing.source == files::source_of(opts, stash),
        listing.phase == ListPhase::Fetching,
        listing.follows(ListEvent::Fetched(Ok(fetched)), now, action),
    ensures
        listing.source is All,
        action is Stat,
        are_those_of(
            now.files.items(),
            if stash {
                paths(fetched@)
            } else {
                paths(fetched@) + paths(listing.status.untracked@)
            },
        ),
{
    let status = listing.status;
    assert(paths(fetched@) =~= path::views(fetched@));
    assert(paths(status.untracked@) =~= path::views(status.untracked@));
    lemma_cleaned(
        now.files.items(),
        if stash {
            paths(fetched@)
        } else {
            paths(fetched@) + paths(status.untracked@)
        },
    );
}

/// Whether a path is a directory or a link to one.
pub open spec fn is_directory(stat: PathStat) -> bool {
    stat == PathStat::Directory || stat == PathStat::LinkToDirectory
}

/// Of the files that were found, exactly those are dropped that are directories or links to such:
/// what is deleted stays, and so does a link that leads nowhere. Without patterns for leaving files
/// out, what stays is the result; else these are matched next.
pub proof fn directories_are_dropped<E>(
    listing: FileListing,
    stats: Vec<PathStat>,
    now: FileListing,
    action: ListAction<E>,
) -> (left: Seq<PathView>)
    requires
        listing.phase == ListPhase::Statting,
        stats@.len() == listing.files.items().len(),
        listing.follows(ListEvent::<E>::Stats(stats), now, action),
    ensures
        listing.excludes@.len() == 0 ==> (action matches ListAction::Finish(Ok(f)) && f.items()
            == left),
        listing.excludes@.len() > 0 ==> action is MatchExcludes && now.phase is Excluding
            && now.files.items() == left,
        forall|i: int|
            0 <= i < stats@.len() && !is_directory(stats@[i]) ==> left.contains(
                #[trigger] listing.files.items()[i],
            ),
        forall|j: int|
            0 <= j < left.len() ==> stays(
                #[trigger] left[j],
                listing.files.items(),
                stats@,
            ),
        (forall|i: int| 0 <= i < stats@.len() ==> !is_directory(#[trigger] stats@[i])) ==> left
            == listing.files.items(),
{
    let items = listing.files.items();
    let keep = files::workable(stats@);
    let left = path::flagged(items, keep);
    files::lemma_flagged(items, keep);
    assert forall|i: int| 0 <= i < stats@.len() && !is_directory(stats@[i]) implies left.contains(
        #[trigger] items[i],
    ) by {
        assert(keep[i]);
    }
    assert forall|j: int| 0 <= j < left.len() implies stays(#[trigger] left[j], items, stats@) by {
        assert(files::is_flagged(items, keep, left[j]));
        let i = choose|i: int| 0 <= i < items.len() && keep[i] && #[trigger] items[i] == left[j];
        assert(items[i] == left[j] && !is_directory(stats@[i]));
    }
    if forall|i: int| 0 <= i < stats@.len() ==> !is_directory(#[trigger] stats@[i]) {
        assert forall|i: int| 0 <= i < keep.len() implies #[trigger] keep[i] by {
            assert(!is_directory(stats@[i]));
        }
        lemma_all_flagged(items, keep);
    }
    left
}

/// Whether a path is one of those found, and neither a directory nor a link to one.
pub open spec fn stays(p: PathView, items: Seq<PathView>, stats: Seq<PathStat>) -> bool {
    exists|i: int| 0 <= i < items.len() && #[trigger] items[i] == p && !is_directory(stats[i])
}

proof fn lemma_all_flagged(items: Seq<PathView>, keep: Seq<bool>)
    requires
        items.len() == keep.len(),
        forall|i: int| 0 <= i < keep.len() ==> #[trigger] keep[i],
    ensures
        path::flagged(items, keep) == items,
    decreases items.len(),
{
    if items.len() > 0 {
        assert(keep[keep.len() - 1]);
        lemma_all_flagged(items.drop_last(), keep.drop_last());
        assert(items.drop_last().push(items.last()) =~= items);
    } else {
        assert(path::flagged(items, keep) =~= items);
    }
}

/// From the options to the result: where nothing particular is asked for, changes are put aside, no
/// staged file is a directory or a link to one, and no patterns for leaving files out are given,
/// the result is the staged files.
pub proof fn staged_files_are_the_result<E>(
    opts: HookOptions,
    listing: FileListing,
    fetched: Vec<FilePath>,
    mid: FileListing,
    action: ListAction<E>,
    stats: Vec<PathStat>,
    now: FileListing,
    result: ListAction<E>,
)
    requires
        opts.files is None,
        opts.glob is None,
        opts.from_ref is None,
        !opts.all,
        listing.source == files::source_of(opts, true),
        listing.excludes@.len() == 0,
        listing.phase == ListPhase::Fetching,
        listing.follows(ListEvent::Fetched(Ok(fetched)), mid, action),
        stats@.len() == mid.files.items().len(),
        forall|i: int| 0 <= i < stats@.len() ==> !is_directory(#[trigger] stats@[i]),
        mid.follows(ListEvent::<E>::Stats(stats), now, result),
    ensures
        result matches ListAction::Finish(Ok(f)) && are_those_of(
            f.items(),
            paths(listing.status.staged@),
        ),
{
    staged_files_are_listed(opts, listing, fetched, mid, action);
    let left = directories_are_dropped(mid, stats, now, result);
}

/// An error while the files are fetched or matched is the result of the listing.
pub proof fn error_ends_the_listing<E>(
    listing: FileListing,
    error: E,
    now: FileListing,
    action: ListAction<E>,
)
    requires
        (listing.phase == ListPhase::Fetching && listing.follows(
            ListEvent::Fetched(Err(error)),
            now,
            action,
        )) || ((listing.phase == ListPhase::Matching || listing.phase == ListPhase::Excluding)
            && listing.follows(ListEvent::Matched(Err(error)), now, action)),
    ensures
        action == ListAction::<E>::Finish(Err(error)),
        now.phase is Finished,
{
}

/// Files that match the patterns for leaving files out are left out of the result, in any spelling,
/// and no others.
pub proof fn matching_excludes_are_left_out<E>(
    listing: FileListing,
    matched: Vec<FilePath>,
    now: FileListing,
    action: ListAction<E>,
    p: PathView,
)
    requires
        listing.phase == ListPhase::Excluding,
        listing.follows(ListEvent::Matched(Ok(matched)), now, action),
    ensures
        action matches ListAction::Finish(Ok(f)) && (f.items().contains(p)
            <==> listing.files.items().contains(p) && !(exists|k: int|
            0 <= k < matched@.len() && path::same_path((#[trigger] matched@[k])@, p))),
{
    let items = listing.files.items();
    let out = path::views(matched@);
    let keep = files::not_among(items, out);
    let left = path::flagged(items, keep);
    files::lemma_flagged(items, keep);
    assert(path::has_path(out, p) <==> exists|k: int|
        0 <= k < matched@.len() && path::same_path((#[trigger] matched@[k])@, p)) by {
        if path::has_path(out, p) {
            let k = choose|k: int| 0 <= k < out.len() && path::same_path(#[trigger] out[k], p);
            assert(path::same_path(matched@[k]@, p));
        }
        if exists|k: int|
            0 <= k < matched@.len() && path::same_path((#[trigger] matched@[k])@, p) {
            let k = choose|k: int|
                0 <= k < matched@.len() && path::same_path((#[trigger] matched@[k])@, p);
            assert(path::same_path(out[k], p));
        }
    }
    if left.contains(p) {
        let j = choose|j: int| 0 <= j < left.len() && left[j] == p;
        assert(files::is_flagged(items, keep, left[j]));
        let i = choose|i: int| 0 <= i < items.len() && keep[i] && #[trigger] items[i] == left[j];
        assert(items[i] == p);
    }
    if items.contains(p) && !path::has_path(out, p) {
        let i = choose|i: int| 0 <= i < items.len() && items[i] == p;
        assert(keep[i]);
        assert(left.contains(items[i]));
    }
}

/// A pattern for leaving files out that holds no wildcard stands for what it names and for what is
/// in the directory of that name; one that holds a wildcard stands for itself alone.
pub proof fn plain_exclude_stands_for_a_directory_too(pattern: Seq<char>)
    ensures
        files::is_glob(pattern) <==> exists|i: int|
            0 <= i < pattern.len() && (#[trigger] pattern[i] == '*' || pattern[i] == '?'
                || pattern[i] == '['),
        files::is_glob(pattern) ==> files::expanded(pattern) == seq![pattern],
        !files::is_glob(pattern) ==> files::expanded(pattern) == seq![
            pattern,
            pattern + "/*"@,
            pattern + "/**"@,
        ],
{
    if files::is_glob(pattern) {
        let c = if pattern.contains('*') {
            '*'
        } else if pattern.contains('?') {
            '?'
        } else {
            '['
        };
        assert(pattern.contains(c));
        let i = choose|i: int| 0 <= i < pattern.len() && pattern[i] == c;
        assert(pattern[i] == c);
    }
}

/// The patterns for leaving files out are those of the settings and those of the command line, each
/// with what it stands for, in their order.
pub proof fn excludes_of_settings_and_command_line_count(
    settings: Seq<String>,
    cli: Vec<String>,
    first: Seq<Seq<char>>,
    second: Seq<Seq<char>>,
    pattern: Seq<char>,
)
    ensures
        files::exclude_patterns(settings, None) == Seq::new(
            settings.len(),
            |i: int| settings[i]@,
        ),
        files::exclude_patterns(settings, Some(cli)) == Seq::new(
            settings.len(),
            |i: int| settings[i]@,
        ) + Seq::new(cli@.len(), |i: int| cli@[i]@),
        files::all_expanded(Seq::<Seq<char>>::empty()).len() == 0,
        files::all_expanded(seq![pattern]) == files::expanded(pattern),
        files::all_expanded(first + second) == files::all_expanded(first) + files::all_expanded(
            second,
        ),
{
    files::lemma_expanded_add(first, second);
    reveal_with_fuel(files::all_expanded, 2);
    assert(seq![pattern].drop_last() =~= Seq::<Seq<char>>::empty());
    assert(files::all_expanded(seq![pattern]) =~= files::expanded(pattern));
    assert(crate::text::texts(settings) =~= Seq::new(settings.len(), |i: int| settings[i]@));
    assert(crate::text::texts(cli@) =~= Seq::new(cli@.len(), |i: int| cli@[i]@));
}

/// The files that are named are those of the first argument, then those of the next, and so on.
pub proof fn arguments_are_listed_in_order(
    first: Seq<Vec<FilePath>>,
    second: Seq<Vec<FilePath>>,
    one: Vec<FilePath>,
)
    ensures
        files::flattened(Seq::<Vec<FilePath>>::empty()).len() == 0,
        files::flattened(seq![one]) == paths(one@),
        files::flattened(first + second) == files::flattened(first) + files::flattened(second),
    decreases second.len(),
{
    reveal_with_fuel(files::flattened, 2);
    assert(seq![one].drop_last() =~= Seq::<Vec<FilePath>>::empty());
    assert(files::flattened(seq![one]) =~= paths(one@));
    if second.len() > 0 {
        arguments_are_listed_in_order(first, second.drop_last(), one);
        let all = first + second;
        assert(all.drop_last() =~= first + second.drop_last());
        assert(files::flattened(all) =~= files::flattened(first) + files::flattened(second));
    } else {
        assert(first + second =~= first);
        assert(files::flattened(first) + files::flattened(second) =~= files::flattened(first));
    }
}

/// What is shown while files are fetched says where they come from; nothing is shown where they are
/// named.
pub proof fn message_says_where_files_come_from(opts: HookOptions, stash: bool)
    ensures
        opts.files is Some ==> files::source_text(opts, stash) is None,
        opts.files is None && opts.glob is Some ==> files::source_text(opts, stash) == Some(
            "Fetching files matching glob"@,
        ),
        opts.files is None && opts.glob is None && opts.from_ref is Some && opts.to_ref is None
            ==> files::source_text(opts, stash) == Some(
            "Fetching files changed since "@ + opts.from_ref->0@,
        ),
        opts.files is None && opts.glob is None && opts.from_ref is Some && opts.to_ref is Some ==> {
            &&& opts.to_ref->0@ == "0000000000000000000000000000000000000000"@
                ==> files::source_text(opts, stash) == Some(
                "No files to compare for remote branch deletion"@,
            )
            &&& opts.to_ref->0@ != "0000000000000000000000000000000000000000"@
                ==> files::source_text(opts, stash) == Some(
                "Fetching files between "@ + opts.from_ref->0@ + " and "@ + opts.to_ref->0@,
            )
        },
        opts.files is None && opts.glob is None && opts.from_ref is None ==> {
            &&& opts.all ==> files::source_text(opts, stash) == Some("Fetching all files in repo"@)
            &&& !opts.all && stash ==> files::source_text(opts, stash) == Some(
                "Fetching staged files"@,
            )
            &&& !opts.all && !stash ==> files::source_text(opts, stash) == Some(
                "Fetching modified files"@,
            )
        },
{
}

} // verus!
