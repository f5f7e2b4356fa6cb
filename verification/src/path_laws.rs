//! How paths are read, ordered, put in sets, joined and taken apart.
use crate::component::{
    is_letter, is_separator, named, names, part_len, upper, Component, PartKind, PathStyle, PathView,
    Separators,
};
use crate::display;
use crate::location::{
    backslashed, followed, is_within, joined_path, lemma_name_ends, parent,
};
use crate::path::{self, FilePath};
use vstd::prelude::*;
use vstd::utf8::encode_utf8;

verus! {

/// A slash parts names on Unix; on Windows a backslash does too, and where a path is taken as it
/// stands nothing but a backslash does.
pub proof fn separators_are_slashes(b: u8)
    ensures
        is_separator(b, Separators::Slash) <==> b == 47,
        is_separator(b, Separators::Backslash) <==> b == 92,
        is_separator(b, Separators::Either) <==> b == 47 || b == 92,
{
}

/// A part between separators is the directory itself where it is a dot, the one above where it is
/// two dots, and else a name.
pub proof fn dots_are_no_names(part: Seq<u8>)
    ensures
        named(seq![46u8]).0 == PartKind::Here,
        named(seq![46u8, 46u8]).0 == PartKind::Up,
        part != seq![46u8] && part != seq![46u8, 46u8] ==> named(part) == (PartKind::Name, part),
{
    let one = seq![46u8];
    let two = seq![46u8, 46u8];
    assert(one.len() != two.len());
}

proof fn lemma_part_of(part: Seq<u8>, rest: Seq<u8>, by: Separators)
    requires
        forall|i: int| 0 <= i < part.len() ==> !is_separator(#[trigger] part[i], by),
        rest.len() > 0 ==> is_separator(rest[0], by),
    ensures
        part_len(part + rest, by) == part.len(),
    decreases part.len(),
{
    let s = part + rest;
    if part.len() > 0 {
        assert(s[0] == part[0]);
        assert(s.drop_first() =~= part.drop_first() + rest);
        lemma_part_of(part.drop_first(), rest, by);
    } else {
        assert(s =~= rest);
    }
}

proof fn lemma_part(s: Seq<u8>, by: Separators)
    ensures
        part_len(s, by) <= s.len(),
        forall|i: int| 0 <= i < part_len(s, by) ==> !is_separator(#[trigger] s[i], by),
        part_len(s, by) < s.len() ==> is_separator(s[part_len(s, by) as int], by),
    decreases s.len(),
{
    if s.len() != 0 && !is_separator(s[0], by) {
        let rest = s.drop_first();
        lemma_part(rest, by);
        assert forall|i: int| 0 <= i < part_len(s, by) implies !is_separator(
            #[trigger] s[i],
            by,
        ) by {
            if i > 0 {
                assert(rest[i - 1] == s[i]);
            }
        }
    }
}

/// A part that holds no separator is one component; but a single dot is none, unless the path is
/// taken as it stands. An empty part is none either.
pub proof fn part_is_one_component(part: Seq<u8>, by: Separators)
    requires
        forall|i: int| 0 <= i < part.len() ==> !is_separator(#[trigger] part[i], by),
    ensures
        part.len() == 0 ==> names(part, by).len() == 0,
        part == seq![46u8] && by != Separators::Backslash ==> names(part, by).len() == 0,
        part.len() > 0 && (part != seq![46u8] || by == Separators::Backslash) ==> names(part, by)
            == seq![named(part)],
{
    lemma_part_of(part, Seq::empty(), by);
    assert(part + Seq::<u8>::empty() =~= part);
    let n = part.len() as int;
    assert(part.take(n) =~= part);
    assert(part.skip(n) =~= Seq::<u8>::empty());
    assert(names(part.skip(n), by) =~= Seq::<Component>::empty());
}

/// Separators part names: the components of two texts with a separator between are those of the
/// first and those of the second.
pub proof fn separators_part_names(a: Seq<u8>, separator: u8, b: Seq<u8>, by: Separators)
    requires
        is_separator(separator, by),
    ensures
        names(a + seq![separator] + b, by) == names(a, by) + names(b, by),
    decreases a.len(),
{
    let s = a + seq![separator] + b;
    if a.len() == 0 {
        assert(s[0] == separator);
        assert(s.drop_first() =~= b);
        assert(names(a, by) + names(b, by) =~= names(b, by));
    } else if is_separator(a[0], by) {
        assert(s[0] == a[0]);
        assert(s.drop_first() =~= a.drop_first() + seq![separator] + b);
        separators_part_names(a.drop_first(), separator, b, by);
    } else {
        lemma_part(a, by);
        let n = part_len(a, by) as int;
        let part = a.take(n);
        let rest = a.skip(n) + seq![separator] + b;
        assert(s =~= part + rest);
        assert(rest[0] == if n < a.len() {
            a[n]
        } else {
            separator
        });
        lemma_part_of(part, rest, by);
        assert(s[0] == a[0]);
        assert(s.take(n) =~= part);
        assert(s.skip(n) =~= rest);
        assert(n > 0);
        separators_part_names(a.skip(n), separator, b, by);
        assert(seq![named(part)] + (names(a.skip(n), by) + names(b, by)) =~= (seq![named(part)]
            + names(a.skip(n), by)) + names(b, by));
    }
}

/// On Unix a path that begins with a slash has the root and then its names; one that begins with a
/// single dot has that and then its names; any other has its names alone.
pub proof fn unix_path_is_root_and_names(rest: Seq<u8>, p: PathView)
    requires
        p.style == PathStyle::Unix,
    ensures
        (PathView { style: PathStyle::Unix, bytes: seq![47u8] + rest }).components() == seq![
            (PartKind::Root, Seq::<u8>::empty()),
        ] + names(rest, Separators::Slash),
        (PathView { style: PathStyle::Unix, bytes: seq![46u8, 47u8] + rest }).components() == seq![
            (PartKind::Here, Seq::<u8>::empty()),
        ] + names(rest, Separators::Slash),
        (PathView { style: PathStyle::Unix, bytes: seq![46u8] }).components() == seq![
            (PartKind::Here, Seq::<u8>::empty()),
        ],
        p.bytes != seq![46u8] && (p.bytes.len() == 0 || p.bytes[0] != 47) && !(p.bytes.len() >= 2
            && p.bytes[0] == 46 && p.bytes[1] == 47) ==> p.components() == names(
            p.bytes,
            Separators::Slash,
        ),
{
    reveal(PathView::components);
    let by = Separators::Slash;
    let a = PathView { style: PathStyle::Unix, bytes: seq![47u8] + rest };
    assert(a.bytes.skip(1) =~= rest);
    assert(a.components() =~= seq![(PartKind::Root, Seq::<u8>::empty())] + names(rest, by));
    let b = PathView { style: PathStyle::Unix, bytes: seq![46u8, 47u8] + rest };
    let dot = seq![46u8];
    let tail = seq![47u8] + rest;
    assert(b.bytes.skip(0) =~= dot + tail);
    lemma_part_of(dot, tail, by);
    assert(b.bytes.skip(0).take(1) =~= dot);
    assert(b.is_dotted());
    assert(b.bytes.skip(1) =~= tail);
    assert(tail.drop_first() =~= rest);
    assert(names(tail, by) == names(rest, by));
    assert(b.components() =~= seq![(PartKind::Here, Seq::<u8>::empty())] + names(rest, by));
    let c = PathView { style: PathStyle::Unix, bytes: dot };
    assert(c.bytes.skip(0) =~= dot);
    lemma_part_of(dot, Seq::empty(), by);
    assert(dot + Seq::<u8>::empty() =~= dot);
    assert(dot.take(1) =~= dot);
    assert(c.is_dotted());
    assert(c.bytes.skip(1) =~= Seq::<u8>::empty());
    assert(c.components() =~= seq![(PartKind::Here, Seq::<u8>::empty())]);
    if p.bytes != dot && (p.bytes.len() == 0 || p.bytes[0] != 47) && !(p.bytes.len() >= 2
        && p.bytes[0] == 46 && p.bytes[1] == 47) {
        assert(p.bytes.skip(0) =~= p.bytes);
        let n = part_len(p.bytes, by) as int;
        lemma_part(p.bytes, by);
        assert(!p.is_rooted());
        if p.is_dotted() {
            assert(p.bytes.take(n) =~= dot);
            assert(n == 1);
            assert(p.bytes[0] == dot[0]);
            if p.bytes.len() == 1 {
                assert(p.bytes =~= dot);
            }
            assert(false);
        }
        assert(p.components() =~= names(p.bytes, by));
    }
}

/// A drive of Windows is the same in both cases; a separator behind it is the root.
pub proof fn drive_has_no_case(letter: u8, rest: Seq<u8>)
    requires
        97 <= letter <= 122,
    ensures
        path::same_path(
            PathView { style: PathStyle::Windows, bytes: seq![letter, 58u8] + rest },
            PathView { style: PathStyle::Windows, bytes: seq![(letter - 32) as u8, 58u8] + rest },
        ),
        (PathView { style: PathStyle::Windows, bytes: seq![letter, 58u8, 92u8] + rest }).components()
            == seq![
            (PartKind::Disk, seq![(letter - 32) as u8]),
            (PartKind::Root, Seq::<u8>::empty()),
        ] + names(rest, Separators::Either),
        (PathView { style: PathStyle::Windows, bytes: seq![letter, 58u8, 47u8] + rest }).components()
            == seq![
            (PartKind::Disk, seq![(letter - 32) as u8]),
            (PartKind::Root, Seq::<u8>::empty()),
        ] + names(rest, Separators::Either),
{
    reveal(PathView::components);
    let capital = (letter - 32) as u8;
    let a = PathView { style: PathStyle::Windows, bytes: seq![letter, 58u8] + rest };
    let b = PathView { style: PathStyle::Windows, bytes: seq![capital, 58u8] + rest };
    assert(a.prefix() == Some(PartKind::Disk));
    assert(b.prefix() == Some(PartKind::Disk));
    assert(a.bytes.skip(2) =~= b.bytes.skip(2));
    if rest.len() > 0 {
        assert(a.bytes.skip(3) =~= b.bytes.skip(3));
    }
    assert(a.is_rooted() == b.is_rooted());
    assert(a.is_dotted() == b.is_dotted());
    if rest.len() == 0 {
        let bare = a.bytes.skip(2);
        assert(bare.take(part_len(bare, Separators::Either) as int).len() == 0);
        assert(!a.is_dotted() && !a.is_rooted());
    }
    assert(a.names() == b.names());
    assert(a.head() =~= b.head());
    assert(a.components() =~= b.components());
    let c = PathView { style: PathStyle::Windows, bytes: seq![letter, 58u8, 92u8] + rest };
    assert(c.prefix() == Some(PartKind::Disk));
    assert(c.bytes[2] == 92u8);
    assert(c.bytes.skip(3) =~= rest);
    assert(c.components() =~= seq![
        (PartKind::Disk, seq![capital]),
        (PartKind::Root, Seq::<u8>::empty()),
    ] + names(rest, Separators::Either));
    let d = PathView { style: PathStyle::Windows, bytes: seq![letter, 58u8, 47u8] + rest };
    assert(d.prefix() == Some(PartKind::Disk));
    assert(d.bytes[2] == 47u8);
    assert(d.bytes.skip(3) =~= rest);
    assert(d.components() =~= seq![
        (PartKind::Disk, seq![capital]),
        (PartKind::Root, Seq::<u8>::empty()),
    ] + names(rest, Separators::Either));
}

/// A share of Windows is known by its server and its name, and has the root.
pub proof fn share_is_server_and_name(server: Seq<u8>, share: Seq<u8>, rest: Seq<u8>)
    requires
        server.len() > 0,
        share.len() > 0,
        server != seq![46u8],
        server != seq![63u8],
        forall|i: int|
            0 <= i < server.len() ==> !is_separator(#[trigger] server[i], Separators::Either),
        forall|i: int|
            0 <= i < share.len() ==> !is_separator(#[trigger] share[i], Separators::Either),
    ensures
        (PathView {
            style: PathStyle::Windows,
            bytes: seq![92u8, 92u8] + server + seq![92u8] + share + seq![92u8] + rest,
        }).components() == seq![
            (PartKind::Unc, server),
            (PartKind::Unc, share),
            (PartKind::Root, Seq::<u8>::empty()),
        ] + names(rest, Separators::Either),
{
    reveal(PathView::components);
    let by = Separators::Either;
    let s = seq![92u8, 92u8] + server + seq![92u8] + share + seq![92u8] + rest;
    let p = PathView { style: PathStyle::Windows, bytes: s };
    let n = server.len() as int;
    let m = share.len() as int;
    assert(s[0] == 92u8 && s[1] == 92u8);
    assert(s[2] == server[0]);
    let behind = seq![92u8] + share + seq![92u8] + rest;
    assert(s.skip(2) =~= server + behind);
    lemma_part_of(server, behind, by);
    let tail = seq![92u8] + rest;
    assert(s.skip(2 + n + 1) =~= share + tail);
    lemma_part_of(share, tail, by);
    if n == 1 {
        assert(server =~= seq![server[0]]);
        assert(server[0] != 46u8);
        assert(server[0] != 63u8);
    } else {
        assert(s[3] == server[1]);
        assert(!is_separator(server[1], by));
    }
    assert(p.prefix() == Some(PartKind::Unc));
    assert(p.prefix_len() == 2 + n + 1 + m);
    assert(s[2 + n + 1 + m] == 92u8);
    assert(s.subrange(2, 2 + n) =~= server);
    assert(s.subrange(2 + n + 1, 2 + n + 1 + m) =~= share);
    assert(s.skip(2 + n + 1 + m + 1) =~= rest);
    assert(p.components() =~= seq![
        (PartKind::Unc, server),
        (PartKind::Unc, share),
        (PartKind::Root, Seq::<u8>::empty()),
    ] + names(rest, by));
}

/// Where a drive of Windows is taken as it stands, backslashes alone part the names behind it, and
/// a single dot is one of them.
pub proof fn verbatim_drive_is_taken_as_it_stands(letter: u8, rest: Seq<u8>)
    requires
        97 <= letter <= 122,
    ensures
        (PathView {
            style: PathStyle::Windows,
            bytes: seq![92u8, 92u8, 63u8, 92u8, letter, 58u8, 92u8] + rest,
        }).components() == seq![
            (PartKind::VerbatimDisk, seq![(letter - 32) as u8]),
            (PartKind::Root, Seq::<u8>::empty()),
        ] + names(rest, Separators::Backslash),
{
    reveal(PathView::components);
    let s = seq![92u8, 92u8, 63u8, 92u8, letter, 58u8, 92u8] + rest;
    let p = PathView { style: PathStyle::Windows, bytes: s };
    assert(s[0] == 92u8 && s[1] == 92u8 && s[2] == 63u8 && s[3] == 92u8);
    assert(s[4] == letter && s[5] == 58u8 && s[6] == 92u8);
    assert(p.prefix() == Some(PartKind::VerbatimDisk));
    assert(s.skip(7) =~= rest);
    assert(p.components() =~= seq![
        (PartKind::VerbatimDisk, seq![(letter - 32) as u8]),
        (PartKind::Root, Seq::<u8>::empty()),
    ] + names(rest, Separators::Backslash));
}

/// The kinds of components stand in this order: prefixes, the root, a dot, two dots, and names.
pub proof fn kinds_stand_in_order()
    ensures
        path::rank(PartKind::Verbatim) < path::rank(PartKind::VerbatimUnc),
        path::rank(PartKind::VerbatimUnc) < path::rank(PartKind::VerbatimDisk),
        path::rank(PartKind::VerbatimDisk) < path::rank(PartKind::Device),
        path::rank(PartKind::Device) < path::rank(PartKind::Unc),
        path::rank(PartKind::Unc) < path::rank(PartKind::Disk),
        path::rank(PartKind::Disk) < path::rank(PartKind::Root),
        path::rank(PartKind::Root) < path::rank(PartKind::Here),
        path::rank(PartKind::Here) < path::rank(PartKind::Up),
        path::rank(PartKind::Up) < path::rank(PartKind::Name),
{
}

/// Bytes are ordered by the first byte in which they differ, and what is continued comes later.
pub proof fn first_other_byte_decides(
    common: Seq<u8>,
    x: u8,
    y: u8,
    a: Seq<u8>,
    b: Seq<u8>,
)
    requires
        x < y,
    ensures
        path::bytes_before(common + seq![x] + a, common + seq![y] + b),
        !path::bytes_before(common + seq![y] + b, common + seq![x] + a),
        path::bytes_before(common, common + seq![x] + a),
        !path::bytes_before(common + seq![x] + a, common),
    decreases common.len(),
{
    let s = common + seq![x] + a;
    let t = common + seq![y] + b;
    if common.len() > 0 {
        first_other_byte_decides(common.drop_first(), x, y, a, b);
        assert(s.drop_first() =~= common.drop_first() + seq![x] + a);
        assert(t.drop_first() =~= common.drop_first() + seq![y] + b);
        assert(s[0] == common[0] && t[0] == common[0]);
    } else {
        assert(s[0] == x && t[0] == y);
    }
}

/// Paths are ordered by the first component in which they differ: by its kind, and names by their
/// bytes. A directory comes before what is in it.
pub proof fn first_other_component_decides(
    common: Seq<Component>,
    x: Component,
    y: Component,
    a: Seq<Component>,
    b: Seq<Component>,
)
    requires
        path::rank(x.0) < path::rank(y.0) || (x.0 == y.0 && path::bytes_before(x.1, y.1)),
    ensures
        path::list_before(common + seq![x] + a, common + seq![y] + b),
        !path::list_before(common + seq![y] + b, common + seq![x] + a),
        path::list_before(common, common + seq![x] + a),
        !path::list_before(common + seq![x] + a, common),
    decreases common.len(),
{
    let s = common + seq![x] + a;
    let t = common + seq![y] + b;
    path::lemma_component_total(x, y);
    if common.len() > 0 {
        first_other_component_decides(common.drop_first(), x, y, a, b);
        assert(s.drop_first() =~= common.drop_first() + seq![x] + a);
        assert(t.drop_first() =~= common.drop_first() + seq![y] + b);
        assert(s[0] == common[0] && t[0] == common[0]);
        path::lemma_component_total(common[0], common[0]);
    } else {
        assert(s[0] == x && t[0] == y);
    }
}

/// Two paths are the same, and one comes before the other, by their components alone.
pub proof fn components_tell_paths_apart(a: PathView, b: PathView)
    ensures
        path::same_path(a, b) <==> a.components() == b.components(),
        path::path_before(a, b) <==> path::list_before(a.components(), b.components()),
{
}

/// Flags pick items where they stand: of two lists, one after the other, what each of them picks,
/// and of a single item that item or nothing.
pub proof fn flags_pick_items_in_order(
    first: Seq<PathView>,
    second: Seq<PathView>,
    first_keep: Seq<bool>,
    second_keep: Seq<bool>,
    item: PathView,
)
    requires
        first.len() == first_keep.len(),
        second.len() == second_keep.len(),
    ensures
        path::flagged(seq![item], seq![true]) == seq![item],
        path::flagged(seq![item], seq![false]).len() == 0,
        path::flagged(first + second, first_keep + second_keep) == path::flagged(first, first_keep)
            + path::flagged(second, second_keep),
    decreases second.len(),
{
    reveal_with_fuel(path::flagged, 2);
    assert(seq![item].drop_last() =~= Seq::<PathView>::empty());
    assert(path::flagged(seq![item], seq![true]) =~= seq![item]);
    if second.len() > 0 {
        flags_pick_items_in_order(
            first,
            second.drop_last(),
            first_keep,
            second_keep.drop_last(),
            item,
        );
        assert((first + second).drop_last() =~= first + second.drop_last());
        assert((first_keep + second_keep).drop_last() =~= first_keep + second_keep.drop_last());
        assert(path::flagged(first + second, first_keep + second_keep) =~= path::flagged(
            first,
            first_keep,
        ) + path::flagged(second, second_keep));
    } else {
        assert(first + second =~= first);
        assert(first_keep + second_keep =~= first_keep);
        assert(path::flagged(first, first_keep) + path::flagged(second, second_keep)
            =~= path::flagged(first, first_keep));
    }
}

/// The paths of a list of files stand in its order.
pub proof fn views_are_those_of_the_files(list: Seq<FilePath>, i: int)
    ensures
        path::views(list).len() == list.len(),
        0 <= i < list.len() ==> path::views(list)[i].bytes == list[i].bytes@ && path::views(
            list,
        )[i].style == list[i].style,
{
}

/// A set of a list has exactly the paths of the list, in one of their spellings, no path twice, and
/// each before those that come later in the order of paths.
pub proof fn set_has_the_paths_of_the_list(
    set: Seq<PathView>,
    list: Seq<PathView>,
    p: PathView,
    i: int,
    j: int,
)
    requires
        path::is_set_of(set, list),
    ensures
        (exists|k: int| 0 <= k < set.len() && path::same_path(#[trigger] set[k], p)) <==> (
        exists|k: int| 0 <= k < list.len() && path::same_path(#[trigger] list[k], p)),
        0 <= i < j < set.len() ==> path::path_before(set[i], set[j]) && !path::same_path(
            set[i],
            set[j],
        ),
        0 <= i < set.len() ==> list.contains(set[i]),
{
    if exists|k: int| 0 <= k < set.len() && path::same_path(#[trigger] set[k], p) {
        let k = choose|k: int| 0 <= k < set.len() && path::same_path(#[trigger] set[k], p);
        assert(list.contains(set[k]));
        let m = choose|m: int| 0 <= m < list.len() && list[m] == set[k];
        assert(path::same_path(list[m], p));
    }
    if exists|k: int| 0 <= k < list.len() && path::same_path(#[trigger] list[k], p) {
        let k = choose|k: int| 0 <= k < list.len() && path::same_path(#[trigger] list[k], p);
        assert(path::has_path(set, list[k]));
        let m = choose|m: int| 0 <= m < set.len() && path::same_path(#[trigger] set[m], list[k]);
        assert(path::same_path(set[m], p));
    }
    if 0 <= i < j < set.len() {
        path::paths_are_totally_ordered(set[i], set[j]);
    }
}

/// On Unix a path that does not begin with a slash leads on from a directory behind a slash, unless
/// the directory is empty or ends in one; a path that does begin with a slash leads to itself.
pub proof fn unix_path_leads_on_from_a_directory(base: PathView, p: PathView)
    requires
        base.style == PathStyle::Unix,
        p.style == PathStyle::Unix,
    ensures
        p.bytes.len() > 0 && p.bytes[0] == 47 ==> joined_path(base, p) == p,
        (p.bytes.len() == 0 || p.bytes[0] != 47) ==> {
            &&& base.bytes.len() == 0 ==> joined_path(base, p).bytes == p.bytes
            &&& base.bytes.len() > 0 && base.bytes.last() == 47 ==> joined_path(base, p).bytes
                == base.bytes + p.bytes
            &&& base.bytes.len() > 0 && base.bytes.last() != 47 ==> joined_path(base, p).bytes
                == base.bytes + seq![47u8] + p.bytes
        },
        joined_path(base, p).style == PathStyle::Unix,
{
    if base.bytes.len() == 0 {
        assert(base.bytes + p.bytes =~= p.bytes);
    }
}

/// On Windows a path without a root leads on from a directory behind a backslash, unless the
/// directory is a drive alone; one that has a root but no prefix leads to that root of the drive.
pub proof fn windows_path_leads_on_from_a_drive(letter: u8, rest: Seq<u8>, p: PathView)
    requires
        97 <= letter <= 122,
        p.style == PathStyle::Windows,
        p.prefix() is None,
        rest.len() > 0,
        !is_separator(rest.last(), Separators::Either),
    ensures
        ({
            let drive = PathView { style: PathStyle::Windows, bytes: seq![letter, 58u8] };
            let dir = PathView { style: PathStyle::Windows, bytes: seq![letter, 58u8] + rest };
            let leads = p.bytes.len() > 0 && is_separator(p.bytes[0], Separators::Either);
            &&& joined_path(drive, p).bytes == seq![letter, 58u8] + p.bytes
            &&& leads ==> joined_path(dir, p).bytes == seq![letter, 58u8] + p.bytes
            &&& !leads ==> joined_path(dir, p).bytes == seq![letter, 58u8] + rest + seq![92u8]
                + p.bytes
        }),
{
    let drive = PathView { style: PathStyle::Windows, bytes: seq![letter, 58u8] };
    let dir = PathView { style: PathStyle::Windows, bytes: seq![letter, 58u8] + rest };
    assert(drive.prefix() == Some(PartKind::Disk));
    assert(dir.prefix() == Some(PartKind::Disk));
    assert(drive.bytes.take(2) =~= seq![letter, 58u8]);
    assert(dir.bytes.take(2) =~= seq![letter, 58u8]);
    assert(dir.bytes.last() == rest.last());
}

/// What leads below a directory is told by components: a directory is within itself, what is within
/// something that is within a directory is within it too, and two directories that are within each
/// other are the same.
pub proof fn being_within_is_an_order(a: PathView, b: PathView, c: PathView)
    ensures
        is_within(a, a),
        is_within(a, b) && is_within(b, c) ==> is_within(a, c),
        is_within(a, b) && is_within(b, a) ==> path::same_path(a, b),
        is_within(a, b) <==> b.components().len() <= a.components().len() && a.components().take(
            b.components().len() as int,
        ) == b.components(),
{
    let x = a.components();
    let y = b.components();
    let z = c.components();
    assert(x.subrange(0, x.len() as int) =~= x);
    if is_within(a, b) && is_within(b, c) {
        assert(y =~= x.subrange(0, y.len() as int));
        assert(z =~= y.subrange(0, z.len() as int));
        assert(x.subrange(0, z.len() as int) =~= z);
    }
    if is_within(a, b) && is_within(b, a) {
        assert(x =~= y);
    }
    if y.len() <= x.len() {
        assert(x.take(y.len() as int) =~= x.subrange(0, y.len() as int));
    }
}

/// A text names the path of its bytes.
pub proof fn text_names_the_path_of_its_bytes(s: Seq<char>, style: PathStyle)
    ensures
        path::text_path(s, style).bytes == encode_utf8(s),
        path::text_path(s, style).style == style,
{
}

/// A path of Unix is shown by its bytes as they are; one of Windows with a replacement for each
/// part of a pair that stands alone, and bytes without such a part as they are.
pub proof fn shown_bytes_are_those_of_the_path(p: PathView)
    ensures
        p.style == PathStyle::Unix ==> display::shown_bytes(p) == p.bytes,
        p.style == PathStyle::Windows && (forall|i: int|
            0 <= i < p.bytes.len() ==> #[trigger] p.bytes[i] != 237) ==> display::shown_bytes(p)
            == p.bytes,
        display::shown_text(p) == display::lossy_text(display::shown_bytes(p)),
{
    if forall|i: int| 0 <= i < p.bytes.len() ==> #[trigger] p.bytes[i] != 237 {
        lemma_no_surrogates(p.bytes);
    }
}

proof fn lemma_no_surrogates(s: Seq<u8>)
    requires
        forall|i: int| 0 <= i < s.len() ==> #[trigger] s[i] != 237,
    ensures
        display::without_surrogates(s) == s,
    decreases s.len(),
{
    if s.len() > 0 {
        assert(s[0] != 237);
        let rest = s.drop_first();
        assert forall|i: int| 0 <= i < rest.len() implies #[trigger] rest[i] != 237 by {
            assert(s[i + 1] != 237);
        }
        lemma_no_surrogates(rest);
        assert(seq![s[0]] + rest =~= s);
    } else {
        assert(display::without_surrogates(s) =~= s);
    }
}

/// A path of Unix leads to the same place from everywhere exactly where it begins with a slash; one
/// of Windows where it begins with a prefix and a separator, or with a prefix that is no drive.
pub proof fn rooted_path_leads_to_the_same_place(p: PathView, letter: u8, rest: Seq<u8>)
    requires
        97 <= letter <= 122,
    ensures
        p.style == PathStyle::Unix ==> (p.is_absolute() <==> p.bytes.len() > 0 && p.bytes[0] == 47),
        p.style == PathStyle::Windows && p.prefix() is None ==> !p.is_absolute(),
        p.style == PathStyle::Windows && p.prefix() is Some && p.prefix() != Some(PartKind::Disk)
            ==> p.is_absolute(),
        (PathView { style: PathStyle::Windows, bytes: seq![letter, 58u8] + rest }).is_absolute()
            <==> rest.len() > 0 && (rest[0] == 47 || rest[0] == 92),
{
    let d = PathView { style: PathStyle::Windows, bytes: seq![letter, 58u8] + rest };
    assert(d.bytes[0] == letter && d.bytes[1] == 58u8);
    assert(d.prefix() == Some(PartKind::Disk));
    if rest.len() > 0 {
        assert(d.bytes[2] == rest[0]);
    }
}

/// Following a path from components adds its names, takes back one for two dots where there is one,
/// and stays for a single dot.
pub proof fn two_dots_take_back_a_name(from: Seq<Component>, by: Seq<Component>, name: Seq<u8>)
    ensures
        followed(from, Seq::empty()) == from,
        followed(from, by.push((PartKind::Name, name))) == followed(from, by).push(
            (PartKind::Name, name),
        ),
        followed(from, by.push((PartKind::Here, name))) == followed(from, by),
        followed(from, by.push((PartKind::Name, name)).push((PartKind::Up, name))) == followed(
            from,
            by,
        ),
        followed(from, by).len() == 0 ==> followed(from, by.push((PartKind::Up, name))) == followed(
            from,
            by,
        ),
{
    let n = by.push((PartKind::Name, name));
    assert(n.drop_last() =~= by);
    assert(by.push((PartKind::Here, name)).drop_last() =~= by);
    assert(by.push((PartKind::Up, name)).drop_last() =~= by);
    assert(n.push((PartKind::Up, name)).drop_last() =~= n);
    assert(followed(from, by).push((PartKind::Name, name)).drop_last() =~= followed(from, by));
}

/// From a directory of Windows that is taken as it stands, a path without prefix and root leads to
/// the prefix and then, each behind a backslash, the names that following it from there gives.
pub proof fn verbatim_directory_resolves_dots(base: PathView, p: PathView)
    requires
        base.style == PathStyle::Windows,
        base.is_verbatim(),
        p.style == PathStyle::Windows,
        p.prefix() is None,
        p.bytes.len() > 0,
    ensures
        ({
            let list = followed(
                if p.is_rooted() {
                    Seq::empty()
                } else {
                    base.names()
                },
                p.names(),
            );
            let prefix = base.bytes.take(base.prefix_len());
            &&& list.len() > 0 ==> joined_path(base, p).bytes == prefix + backslashed(list)
            &&& list.len() == 0 && (base.is_rooted() || p.is_rooted()) ==> joined_path(base, p).bytes
                == prefix + seq![92u8]
            &&& list.len() == 0 && !base.is_rooted() && !p.is_rooted() ==> joined_path(base, p).bytes
                == prefix
        }),
{
    let prefix = base.bytes.take(base.prefix_len());
    assert(prefix.push(92u8) =~= prefix + seq![92u8]);
}

/// Names are written behind backslashes in their order: of two lists, one after the other, what
/// each of them gives; a dot as one and two dots as two.
pub proof fn names_are_written_behind_backslashes(
    first: Seq<Component>,
    second: Seq<Component>,
    name: Seq<u8>,
)
    ensures
        backslashed(first + second) == backslashed(first) + backslashed(second),
        backslashed(seq![(PartKind::Name, name)]) == seq![92u8] + name,
        backslashed(seq![(PartKind::Here, name)]) == seq![92u8, 46u8],
        backslashed(seq![(PartKind::Up, name)]) == seq![92u8, 46u8, 46u8],
    decreases second.len(),
{
    reveal_with_fuel(backslashed, 2);
    let none = Seq::<Component>::empty();
    assert(seq![(PartKind::Name, name)].drop_last() =~= none);
    assert(seq![(PartKind::Here, name)].drop_last() =~= none);
    assert(seq![(PartKind::Up, name)].drop_last() =~= none);
    assert(backslashed(seq![(PartKind::Name, name)]) =~= seq![92u8] + name);
    assert(backslashed(seq![(PartKind::Here, name)]) =~= seq![92u8, 46u8]);
    assert(backslashed(seq![(PartKind::Up, name)]) =~= seq![92u8, 46u8, 46u8]);
    if second.len() > 0 {
        names_are_written_behind_backslashes(first, second.drop_last(), name);
        assert((first + second).drop_last() =~= first + second.drop_last());
        assert(backslashed(first + second) =~= backslashed(first) + backslashed(second));
    } else {
        assert(first + second =~= first);
        assert(backslashed(first) + backslashed(second) =~= backslashed(first));
    }
}

proof fn lemma_kinds(s: Seq<u8>, by: Separators)
    ensures
        forall|i: int|
            0 <= i < names(s, by).len() ==> (#[trigger] names(s, by)[i]).0 == PartKind::Name || names(
                s,
                by,
            )[i].0 == PartKind::Here || names(s, by)[i].0 == PartKind::Up,
    decreases s.len(),
{
    let n = part_len(s, by) as int;
    if s.len() > 0 {
        lemma_part(s, by);
        if n == 0 {
            lemma_kinds(s.drop_first(), by);
        } else {
            lemma_kinds(s.skip(n), by);
        }
    }
}

/// A path has a parent exactly where its last component is a name, a dot or two dots: the root and
/// a prefix have none, and nothing has none either.
pub proof fn root_has_no_parent(p: PathView)
    ensures
        parent(p) is Some <==> p.components().len() > 0 && (p.components().last().0
            == PartKind::Name || p.components().last().0 == PartKind::Here
            || p.components().last().0 == PartKind::Up),
{
    reveal(PathView::components);
    let start = p.body_start();
    let by = p.separators();
    let body = p.bytes.skip(start);
    lemma_kinds(body, by);
    lemma_name_ends(body, start, by);
    if p.names().len() > 0 {
        assert(p.components().last() == p.names().last());
    } else {
        assert(p.components() =~= p.head());
    }
}

/// A device of Windows is known by its name, and has the root.
pub proof fn device_is_known_by_its_name(name: Seq<u8>, rest: Seq<u8>)
    requires
        forall|i: int| 0 <= i < name.len() ==> !is_separator(#[trigger] name[i], Separators::Either),
    ensures
        (PathView {
            style: PathStyle::Windows,
            bytes: seq![92u8, 92u8, 46u8, 92u8] + name + seq![92u8] + rest,
        }).components() == seq![
            (PartKind::Device, name),
            (PartKind::Root, Seq::<u8>::empty()),
        ] + names(rest, Separators::Either),
{
    reveal(PathView::components);
    let by = Separators::Either;
    let s = seq![92u8, 92u8, 46u8, 92u8] + name + seq![92u8] + rest;
    let p = PathView { style: PathStyle::Windows, bytes: s };
    let n = name.len() as int;
    assert(s[0] == 92u8 && s[1] == 92u8 && s[2] == 46u8 && s[3] == 92u8);
    let tail = seq![92u8] + rest;
    assert(s.skip(4) =~= name + tail);
    lemma_part_of(name, tail, by);
    assert(p.prefix() == Some(PartKind::Device));
    assert(p.prefix_len() == 4 + n);
    assert(s[4 + n] == 92u8);
    assert(s.subrange(4, 4 + n) =~= name);
    assert(s.skip(4 + n + 1) =~= rest);
    assert(p.components() =~= seq![
        (PartKind::Device, name),
        (PartKind::Root, Seq::<u8>::empty()),
    ] + names(rest, by));
}

/// A name of Windows that is taken as it stands is one component, and backslashes alone part the
/// names behind it.
pub proof fn verbatim_name_is_taken_as_it_stands(name: Seq<u8>, rest: Seq<u8>)
    requires
        name.len() > 0,
        name[0] != 85,
        name.len() == 1 || name[1] != 58,
        forall|i: int|
            0 <= i < name.len() ==> !is_separator(#[trigger] name[i], Separators::Backslash),
    ensures
        (PathView {
            style: PathStyle::Windows,
            bytes: seq![92u8, 92u8, 63u8, 92u8] + name + seq![92u8] + rest,
        }).components() == seq![
            (PartKind::Verbatim, name),
            (PartKind::Root, Seq::<u8>::empty()),
        ] + names(rest, Separators::Backslash),
{
    reveal(PathView::components);
    let by = Separators::Backslash;
    let s = seq![92u8, 92u8, 63u8, 92u8] + name + seq![92u8] + rest;
    let p = PathView { style: PathStyle::Windows, bytes: s };
    let n = name.len() as int;
    assert(s[0] == 92u8 && s[1] == 92u8 && s[2] == 63u8 && s[3] == 92u8);
    assert(s[4] == name[0]);
    if n > 1 {
        assert(s[5] == name[1]);
    } else {
        assert(s[5] == 92u8);
    }
    let tail = seq![92u8] + rest;
    assert(s.skip(4) =~= name + tail);
    lemma_part_of(name, tail, by);
    assert(p.prefix() == Some(PartKind::Verbatim));
    assert(p.prefix_len() == 4 + n);
    assert(s[4 + n] == 92u8);
    assert(s.subrange(4, 4 + n) =~= name);
    assert(s.skip(4 + n + 1) =~= rest);
    assert(p.components() =~= seq![
        (PartKind::Verbatim, name),
        (PartKind::Root, Seq::<u8>::empty()),
    ] + names(rest, by));
}

/// A share of Windows that is taken as it stands is known by its server and its name.
pub proof fn verbatim_share_is_server_and_name(server: Seq<u8>, share: Seq<u8>, rest: Seq<u8>)
    requires
        share.len() > 0,
        forall|i: int|
            0 <= i < server.len() ==> !is_separator(#[trigger] server[i], Separators::Backslash),
        forall|i: int|
            0 <= i < share.len() ==> !is_separator(#[trigger] share[i], Separators::Backslash),
    ensures
        (PathView {
            style: PathStyle::Windows,
            bytes: seq![92u8, 92u8, 63u8, 92u8, 85u8, 78u8, 67u8, 92u8] + server + seq![92u8] + share
                + seq![92u8] + rest,
        }).components() == seq![
            (PartKind::VerbatimUnc, server),
            (PartKind::VerbatimUnc, share),
            (PartKind::Root, Seq::<u8>::empty()),
        ] + names(rest, Separators::Backslash),
{
    reveal(PathView::components);
    let by = Separators::Backslash;
    let s = seq![92u8, 92u8, 63u8, 92u8, 85u8, 78u8, 67u8, 92u8] + server + seq![92u8] + share
        + seq![92u8] + rest;
    let p = PathView { style: PathStyle::Windows, bytes: s };
    let n = server.len() as int;
    let m = share.len() as int;
    assert(s[0] == 92u8 && s[1] == 92u8 && s[2] == 63u8 && s[3] == 92u8);
    assert(s[4] == 85u8 && s[5] == 78u8 && s[6] == 67u8 && s[7] == 92u8);
    let behind = seq![92u8] + share + seq![92u8] + rest;
    assert(s.skip(8) =~= server + behind);
    lemma_part_of(server, behind, by);
    let tail = seq![92u8] + rest;
    assert(s.skip(8 + n + 1) =~= share + tail);
    lemma_part_of(share, tail, by);
    assert(p.prefix() == Some(PartKind::VerbatimUnc));
    assert(p.prefix_len() == 8 + n + 1 + m);
    assert(s[8 + n + 1 + m] == 92u8);
    assert(s.subrange(8, 8 + n) =~= server);
    assert(s.subrange(8 + n + 1, 8 + n + 1 + m) =~= share);
    assert(s.skip(8 + n + 1 + m + 1) =~= rest);
    assert(p.components() =~= seq![
        (PartKind::VerbatimUnc, server),
        (PartKind::VerbatimUnc, share),
        (PartKind::Root, Seq::<u8>::empty()),
    ] + names(rest, by));
}

/// A path of Windows that begins neither with two separators nor with a drive has no prefix: it has
/// the root where it begins with a separator, and then its names.
pub proof fn windows_path_without_prefix_is_root_and_names(p: PathView)
    requires
        p.style == PathStyle::Windows,
        p.bytes.len() < 2 || !(is_separator(p.bytes[0], Separators::Either) && is_separator(
            p.bytes[1],
            Separators::Either,
        )),
        p.bytes.len() < 2 || p.bytes[1] != 58,
        p.bytes.len() == 0 || p.bytes[0] != 46,
    ensures
        p.prefix() is None,
        p.bytes.len() > 0 && is_separator(p.bytes[0], Separators::Either) ==> p.components() == seq![
            (PartKind::Root, Seq::<u8>::empty()),
        ] + names(p.bytes.skip(1), Separators::Either),
        p.bytes.len() == 0 || !is_separator(p.bytes[0], Separators::Either) ==> p.components()
            == names(p.bytes, Separators::Either),
{
    reveal(PathView::components);
    let by = Separators::Either;
    assert(p.prefix() is None);
    assert(p.bytes.skip(0) =~= p.bytes);
    lemma_part(p.bytes, by);
    let n = part_len(p.bytes, by) as int;
    if p.bytes.take(n) == seq![46u8] {
        assert(p.bytes.take(n).len() == seq![46u8].len());
        assert(n == 1);
        assert(p.bytes.take(n)[0] == p.bytes[0]);
    }
    assert(!p.is_dotted());
    if p.bytes.len() > 0 && is_separator(p.bytes[0], by) {
        assert(p.components() =~= seq![(PartKind::Root, Seq::<u8>::empty())] + names(
            p.bytes.skip(1),
            by,
        ));
    } else {
        assert(p.components() =~= names(p.bytes, by));
    }
}

/// A drive is a letter of the alphabet, in either case, and no other byte.
pub proof fn drive_is_a_letter(b: u8)
    ensures
        is_letter(b) <==> 65 <= b <= 90 || 97 <= b <= 122,
        97 <= b <= 122 ==> upper(b) == b - 32,
        !(97 <= b <= 122) ==> upper(b) == b,
{
}

/// Two separators and a name that no share follows are no prefix.
pub proof fn server_without_a_share_is_no_prefix(server: Seq<u8>)
    requires
        server.len() > 0,
        forall|i: int|
            0 <= i < server.len() ==> !is_separator(#[trigger] server[i], Separators::Either),
    ensures
        (PathView { style: PathStyle::Windows, bytes: seq![92u8, 92u8] + server }).prefix() is None,
{
    let by = Separators::Either;
    let s = seq![92u8, 92u8] + server;
    assert(s[0] == 92u8 && s[1] == 92u8);
    assert(s.skip(2) =~= server + Seq::<u8>::empty());
    lemma_part_of(server, Seq::empty(), by);
    if s.len() >= 4 {
        assert(s[3] == server[1]);
        assert(!is_separator(server[1], by));
    }
}

} // verus!
