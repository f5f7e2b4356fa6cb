//! Where paths lead: what they are relative to, and what they stand in.
use crate::component::{
    self, bytes_from, components_of, first_at, first_end, is_drive, is_separator, is_share, layout,
    lemma_body_start, lemma_part_len, lemma_part_len_take, lemma_prefix, names, next_len, part_end,
    part_len, parts, prefix_components, prefix_end, prefix_kind, push_names, separates,
    separators_after, share_len, Component, PartKind, PathStyle, PathView, Separators,
};
use crate::path::{self, FilePath, PathOrder};
use vstd::prelude::*;

verus! {

/// Components with those of a relative path followed: two dots take back a name.
pub open spec fn followed(from: Seq<Component>, by: Seq<Component>) -> Seq<Component>
    decreases by.len(),
{
    if by.len() == 0 {
        from
    } else {
        let before = followed(from, by.drop_last());
        match by.last().0 {
            PartKind::Here => before,
            PartKind::Up => if before.len() > 0 && before.last().0 == PartKind::Name {
                before.drop_last()
            } else {
                before
            },
            _ => before.push(by.last()),
        }
    }
}

/// How a component is written.
pub open spec fn spelled(c: Component) -> Seq<u8> {
    match c.0 {
        PartKind::Here => seq![46u8],
        PartKind::Up => seq![46u8, 46u8],
        _ => c.1,
    }
}

/// Components, each behind a backslash.
pub open spec fn backslashed(list: Seq<Component>) -> Seq<u8>
    decreases list.len(),
{
    if list.len() == 0 {
        Seq::empty()
    } else {
        backslashed(list.drop_last()) + seq![92u8] + spelled(list.last())
    }
}

/// The path that another one leads to from a directory that is taken as it stands: dots are
/// resolved, and backslashes part the names.
pub open spec fn verbatim_joined(base: PathView, p: PathView) -> Seq<u8> {
    let prefix = base.bytes.take(base.prefix_len());
    let list = followed(
        if p.is_rooted() {
            Seq::empty()
        } else {
            base.names()
        },
        p.names(),
    );
    if list.len() > 0 {
        prefix + backslashed(list)
    } else if base.is_rooted() || p.is_rooted() {
        prefix.push(92u8)
    } else {
        prefix
    }
}

/// Whether nothing has to part a directory from what follows it: it is empty, ends in a separator
/// or is a drive alone.
pub open spec fn joins_directly(base: PathView) -> bool {
    ||| base.bytes.len() == 0
    ||| is_separator(base.bytes.last(), base.all_separators())
    ||| base.prefix() == Some(PartKind::Disk) && base.bytes.len() == 2
}

/// The path that another one leads to from a directory. It is that path itself where it is
/// absolute or has a prefix; where it is rooted it replaces all but the prefix.
pub open spec fn joined_path(base: PathView, p: PathView) -> PathView {
    if p.is_absolute() || p.prefix() is Some {
        p
    } else {
        let bytes = if base.is_verbatim() && p.bytes.len() > 0 {
            verbatim_joined(base, p)
        } else if p.is_rooted() {
            base.bytes.take(base.prefix_len()) + p.bytes
        } else if joins_directly(base) {
            base.bytes + p.bytes
        } else {
            base.bytes + seq![
                match base.style {
                    PathStyle::Unix => 47u8,
                    PathStyle::Windows => 92u8,
                },
            ] + p.bytes
        };
        PathView { style: base.style, bytes }
    }
}

/// Whether a path leads to a directory or to something below it, by its components.
pub open spec fn is_within(p: PathView, dir: PathView) -> bool {
    dir.components().is_prefix_of(p.components())
}

/// Where the parts that name something end, counted from `from`.
pub open spec fn name_ends(s: Seq<u8>, from: int, by: Separators) -> Seq<int>
    decreases s.len(),
{
    let n = part_len(s, by) as int;
    if s.len() == 0 {
        Seq::empty()
    } else if n == 0 {
        name_ends(s.drop_first(), from + 1, by)
    } else {
        proof {
            lemma_part_len(s, by);
        }
        let rest = name_ends(s.skip(n), from + n, by);
        if s.take(n) == seq![46u8] && by != Separators::Backslash {
            rest
        } else {
            seq![from + n] + rest
        }
    }
}

/// The path up to its last component. A path without names has none, unless it is a single dot.
pub open spec fn parent(p: PathView) -> Option<PathView> {
    let start = p.body_start();
    let ends = name_ends(p.bytes.skip(start), start, p.separators());
    if ends.len() > 1 {
        Some(PathView { style: p.style, bytes: p.bytes.take(ends[ends.len() - 2]) })
    } else if ends.len() == 1 {
        Some(PathView { style: p.style, bytes: p.bytes.take(start) })
    } else if p.is_dotted() && p.prefix() is None {
        Some(PathView { style: p.style, bytes: Seq::empty() })
    } else {
        None
    }
}

pub(crate) proof fn lemma_name_ends(s: Seq<u8>, from: int, by: Separators)
    ensures
        name_ends(s, from, by).len() == names(s, by).len(),
        forall|i: int|
            0 <= i < name_ends(s, from, by).len() ==> from < #[trigger] name_ends(s, from, by)[i]
                <= from + s.len(),
        forall|i: int|
            0 <= i < name_ends(s, from, by).len() ==> #[trigger] name_ends(s, from, by)[i] == from
                + name_ends(s, 0, by)[i],
    decreases s.len(),
{
    let n = part_len(s, by) as int;
    if s.len() == 0 {
    } else if n == 0 {
        lemma_name_ends(s.drop_first(), from + 1, by);
        lemma_name_ends(s.drop_first(), 1, by);
    } else {
        lemma_part_len(s, by);
        lemma_name_ends(s.skip(n), from + n, by);
        lemma_name_ends(s.skip(n), n, by);
    }
}

proof fn lemma_names_take(s: Seq<u8>, k: int, by: Separators)
    requires
        0 <= k < name_ends(s, 0, by).len(),
    ensures
        names(s.take(name_ends(s, 0, by)[k]), by) == names(s, by).take(k + 1),
    decreases s.len(),
{
    let n = part_len(s, by) as int;
    let e = name_ends(s, 0, by)[k];
    let t = s.take(e);
    lemma_part_len(s, by);
    lemma_name_ends(s, 0, by);
    if n == 0 {
        let rest = s.drop_first();
        lemma_name_ends(rest, 1, by);
        lemma_name_ends(rest, 0, by);
        assert(t.drop_first() =~= rest.take(e - 1));
        lemma_names_take(rest, k, by);
    } else {
        let rest = s.skip(n);
        lemma_name_ends(rest, n, by);
        lemma_name_ends(rest, 0, by);
        lemma_part_len_take(s, e, by);
        assert(t.take(n) =~= s.take(n));
        if s.take(n) == seq![46u8] && by != Separators::Backslash {
            lemma_names_take(rest, k, by);
            assert(t.skip(n) =~= rest.take(e - n));
        } else if k == 0 {
            assert(t.skip(n) =~= Seq::empty());
            assert(names(t.skip(n), by) =~= Seq::empty());
            assert(names(t, by) =~= names(s, by).take(1));
        } else {
            lemma_names_take(rest, k - 1, by);
            assert(t.skip(n) =~= rest.take(e - n));
            assert(names(t, by) =~= names(s, by).take(k + 1));
        }
    }
}

/// No named part ends before the first part does.
proof fn lemma_first_end(s: Seq<u8>, by: Separators)
    ensures
        forall|i: int|
            0 <= i < name_ends(s, 0, by).len() ==> #[trigger] name_ends(s, 0, by)[i] >= part_len(
                s,
                by,
            ),
{
    let n = part_len(s, by) as int;
    if n > 0 {
        lemma_part_len(s, by);
        lemma_name_ends(s.skip(n), n, by);
    } else {
        lemma_name_ends(s, 0, by);
    }
}

/// The part behind a separator in a beginning of a text.
proof fn lemma_next_take(s: Seq<u8>, m: int, end: int, by: Separators)
    requires
        0 <= end <= m <= s.len(),
    ensures
        next_len(s.take(m), end, by) <= next_len(s, end, by),
        next_len(s, end, by) > 0 && end + 1 + next_len(s, end, by) <= m ==> next_len(
            s.take(m),
            end,
            by,
        ) == next_len(s, end, by),
{
    if end < m {
        assert(s.take(m).skip(end + 1) =~= s.skip(end + 1).take(m - end - 1));
        lemma_part_len_take(s.skip(end + 1), m - end - 1, by);
    }
}

/// The beginning of a path that holds its prefix has the same prefix; without one, every beginning
/// has none.
proof fn lemma_prefix_take(s: Seq<u8>, m: int)
    requires
        0 <= m <= s.len(),
        prefix_kind(s) matches Some(kind) ==> prefix_end(s, kind) <= m,
    ensures
        prefix_kind(s.take(m)) == prefix_kind(s),
        prefix_kind(s) matches Some(kind) ==> {
            &&& prefix_end(s.take(m), kind) == prefix_end(s, kind)
            &&& prefix_components(s.take(m), kind) == prefix_components(s, kind)
        },
{
    let t = s.take(m);
    lemma_prefix(s);
    match prefix_kind(s) {
        Some(kind) => {
            let at = first_at(kind);
            let by = separators_after(kind);
            let end = first_end(s, kind);
            assert(t.skip(at) =~= s.skip(at).take(m - at));
            lemma_part_len_take(s.skip(at), m - at, by);
            assert(first_end(t, kind) == end);
            if is_share(kind) {
                lemma_next_take(s, m, end, by);
                assert(share_len(t, kind) == share_len(s, kind));
            }
            if kind == PartKind::Verbatim && is_drive(s, 4) {
                assert(s.skip(4)[0] == s[4] && s.skip(4).drop_first()[0] == s[5]);
                assert(s.skip(4).drop_first().drop_first()[0] == s[6]);
                reveal_with_fuel(part_len, 4);
                assert(prefix_end(s, kind) >= 7);
            }
            assert(prefix_kind(t) == Some(kind));
            assert(t.subrange(at, end) =~= s.subrange(at, end));
            let last = prefix_end(s, kind);
            if is_share(kind) {
                let from = last - share_len(s, kind);
                assert(t.subrange(from, last) =~= s.subrange(from, last));
            }
        },
        None => {
            if m >= 2 {
                let either = Separators::Either;
                let n = part_len(s.skip(2), either) as int;
                assert(t.skip(2) =~= s.skip(2).take(m - 2));
                lemma_part_len(s.skip(2), either);
                lemma_part_len_take(s.skip(2), m - 2, either);
                if 2 + n <= m {
                    lemma_next_take(s, m, 2 + n, either);
                }
            }
        },
    }
}

/// The beginning of a path that ends with the head, or not before the first name does, is laid out
/// as the path is.
proof fn lemma_layout_take(p: PathView, m: int)
    requires
        p.body_start() <= m <= p.bytes.len(),
        m == p.body_start() || m - p.body_start() >= part_len(
            p.bytes.skip(p.body_start()),
            p.separators(),
        ),
    ensures
        ({
            let q = PathView { style: p.style, bytes: p.bytes.take(m) };
            &&& q.separators() == p.separators()
            &&& q.body_start() == p.body_start()
            &&& q.head() == p.head()
        }),
{
    let q = PathView { style: p.style, bytes: p.bytes.take(m) };
    lemma_body_start(p);
    if p.style == PathStyle::Windows {
        lemma_prefix_take(p.bytes, m);
    }
    let at = p.prefix_len();
    let by = p.separators();
    let rest = p.bytes.skip(at);
    lemma_part_len(rest, by);
    lemma_part_len_take(rest, m - at, by);
    assert(q.bytes.skip(at) =~= rest.take(m - at));
    assert(q.is_rooted() == p.is_rooted());
    if m - at >= part_len(rest, by) {
        let n = part_len(rest, by) as int;
        assert(q.bytes.skip(at).take(n) =~= rest.take(n));
    } else if !p.is_rooted() {
        if p.is_dotted() {
            assert(rest.take(part_len(rest, by) as int).len() == 1);
        }
        assert(m == at);
        assert(q.bytes.skip(at).take(0).len() == 0);
    }
    assert(q.is_dotted() == p.is_dotted());
}

/// The components of the path up to the last component are all but the last.
pub proof fn parent_drops_last_component(p: PathView)
    requires
        parent(p) is Some,
    ensures
        p.components().len() > 0,
        parent(p)->0.components() == p.components().drop_last(),
{
    reveal(PathView::components);
    let start = p.body_start();
    let by = p.separators();
    let body = p.bytes.skip(start);
    let ends = name_ends(body, start, by);
    let n = ends.len() as int;
    lemma_body_start(p);
    lemma_name_ends(body, start, by);
    lemma_name_ends(body, 0, by);
    lemma_first_end(body, by);
    if n == 0 {
        let q = PathView { style: p.style, bytes: Seq::empty() };
        assert(q.bytes.skip(0).take(0).len() == 0);
        assert(q.components() =~= p.components().drop_last());
    } else {
        let m = if n > 1 {
            ends[n - 2]
        } else {
            start
        };
        let q = PathView { style: p.style, bytes: p.bytes.take(m) };
        lemma_layout_take(p, m);
        assert(q.bytes.skip(start) =~= body.take(m - start));
        if n > 1 {
            lemma_names_take(body, n - 2, by);
        } else {
            assert(names(body.take(0), by) =~= Seq::empty());
        }
        assert(q.names() == p.names().take(n - 1));
        assert(q.components() =~= p.components().drop_last());
    }
}

/// A separator ends a part.
proof fn lemma_part_len_before(a: Seq<u8>, b: Seq<u8>, by: Separators)
    requires
        b.len() > 0,
        is_separator(b[0], by),
    ensures
        part_len(a + b, by) == part_len(a, by),
    decreases a.len(),
{
    if a.len() == 0 {
        assert(a + b =~= b);
    } else if !is_separator(a[0], by) {
        assert((a + b).drop_first() =~= a.drop_first() + b);
        lemma_part_len_before(a.drop_first(), b, by);
    }
}

/// A separator parts the names before it from those behind it.
proof fn lemma_names_before(a: Seq<u8>, b: Seq<u8>, by: Separators)
    requires
        b.len() > 0,
        is_separator(b[0], by),
    ensures
        names(a + b, by) == names(a, by) + names(b, by),
    decreases a.len(),
{
    let n = part_len(a, by) as int;
    lemma_part_len_before(a, b, by);
    lemma_part_len(a, by);
    if a.len() == 0 {
        assert(a + b =~= b);
        assert(names(a, by) + names(b, by) =~= names(b, by));
    } else if n == 0 {
        assert((a + b).drop_first() =~= a.drop_first() + b);
        lemma_names_before(a.drop_first(), b, by);
    } else {
        assert((a + b).take(n) =~= a.take(n));
        assert((a + b).skip(n) =~= a.skip(n) + b);
        lemma_names_before(a.skip(n), b, by);
        assert(names(a + b, by) =~= names(a, by) + names(b, by));
    }
}

/// On Unix, a directory followed by a slash and anything more lies within the directory.
pub proof fn path_below_is_within(dir: PathView, below: PathView, rest: Seq<u8>)
    requires
        dir.style == PathStyle::Unix,
        below == (PathView { style: dir.style, bytes: dir.bytes + seq![47u8] + rest }),
    ensures
        is_within(below, dir),
{
    reveal(PathView::components);
    let by = Separators::Slash;
    let more = seq![47u8] + rest;
    assert(below.bytes =~= dir.bytes + more);
    if dir.bytes.len() == 0 {
        assert(dir.bytes.skip(0).take(0).len() == 0);
        assert(dir.components() =~= Seq::empty());
    } else {
        let start = dir.body_start();
        lemma_body_start(dir);
        assert(dir.bytes.skip(0) =~= dir.bytes);
        assert(below.bytes.skip(0) =~= below.bytes);
        lemma_part_len(dir.bytes, by);
        lemma_part_len_before(dir.bytes, more, by);
        let n = part_len(dir.bytes, by) as int;
        assert(below.bytes.take(n) =~= dir.bytes.take(n));
        assert(below.bytes.skip(start) =~= dir.bytes.skip(start) + more);
        lemma_names_before(dir.bytes.skip(start), more, by);
        assert(below.head() == dir.head());
        assert(below.components().take(dir.components().len() as int) =~= dir.components());
    }
}

/// A path that is absolute leads to the same place from every directory.
pub proof fn absolute_path_is_kept(base: PathView, p: PathView)
    requires
        p.is_absolute(),
    ensures
        joined_path(base, p) == p,
{
}

fn append(r: &mut Vec<u8>, more: &Vec<u8>)
    ensures
        final(r)@ == old(r)@ + more@,
{
    let ghost start = r@;
    let mut i: usize = 0;
    while i < more.len()
        invariant
            i <= more@.len(),
            r@ == start + more@.take(i as int),
        decreases more@.len() - i,
    {
        r.push(more[i]);
        assert(r@ =~= start + more@.take(i + 1));
        i = i + 1;
    }
    assert(more@.take(i as int) =~= more@);
}

fn follow(list: &mut Vec<(PartKind, Vec<u8>)>, by: &Vec<(PartKind, Vec<u8>)>)
    ensures
        parts(final(list)@) == followed(parts(old(list)@), parts(by@)),
{
    let ghost start = parts(list@);
    let ghost all = parts(by@);
    let mut i: usize = 0;
    while i < by.len()
        invariant
            i <= by@.len(),
            all == parts(by@),
            parts(list@) == followed(start, all.take(i as int)),
        decreases by@.len() - i,
    {
        let ghost before = parts(list@);
        proof {
            assert(all.take(i + 1).drop_last() =~= all.take(i as int));
            assert(all.take(i + 1).last() == (by@[i as int].0, by@[i as int].1@));
        }
        match by[i].0 {
            PartKind::Here => {},
            PartKind::Up => {
                let n = list.len();
                if n > 0 && list[n - 1].0 == PartKind::Name {
                    list.pop();
                    assert(parts(list@) =~= before.drop_last());
                }
            },
            _ => {
                let bytes = bytes_from(&by[i].1, 0, by[i].1.len());
                assert(bytes@ =~= by@[i as int].1@);
                list.push((by[i].0, bytes));
                assert(parts(list@) =~= before.push(all[i as int]));
            },
        }
        i = i + 1;
    }
    assert(all.take(i as int) =~= all);
}

fn append_backslashed(r: &mut Vec<u8>, list: &Vec<(PartKind, Vec<u8>)>)
    ensures
        final(r)@ == old(r)@ + backslashed(parts(list@)),
{
    let ghost start = r@;
    let ghost all = parts(list@);
    let mut i: usize = 0;
    assert(r@ =~= start + backslashed(all.take(0)));
    while i < list.len()
        invariant
            i <= list@.len(),
            all == parts(list@),
            r@ == start + backslashed(all.take(i as int)),
        decreases list@.len() - i,
    {
        let ghost before = r@;
        let ghost c = all[i as int];
        r.push(92u8);
        match list[i].0 {
            PartKind::Here => {
                r.push(46u8);
            },
            PartKind::Up => {
                r.push(46u8);
                r.push(46u8);
            },
            _ => {
                append(r, &list[i].1);
            },
        }
        proof {
            assert(r@ =~= before + seq![92u8] + spelled(c));
            assert(all.take(i + 1).drop_last() =~= all.take(i as int));
            assert(r@ =~= start + backslashed(all.take(i + 1)));
        }
        i = i + 1;
    }
    assert(all.take(i as int) =~= all);
}

impl FilePath {
    /// Whether the path leads to the same place from every directory.
    pub fn is_absolute(&self) -> (b: bool)
        ensures
            b == self@.is_absolute(),
    {
        let l = layout(&self.bytes, self.style);
        match self.style {
            PathStyle::Unix => l.is_rooted,
            PathStyle::Windows => match l.prefix {
                Some(kind) => l.is_rooted || kind != PartKind::Disk,
                None => false,
            },
        }
    }

    fn join_verbatim(&self, p: &FilePath) -> (r: Vec<u8>)
        ensures
            r@ == verbatim_joined(self@, p@),
    {
        let l = layout(&self.bytes, self.style);
        let more = layout(&p.bytes, p.style);
        let mut list: Vec<(PartKind, Vec<u8>)> = Vec::new();
        let mut by: Vec<(PartKind, Vec<u8>)> = Vec::new();
        assert(parts(list@) =~= Seq::empty());
        assert(parts(by@) =~= Seq::empty());
        if !more.is_rooted {
            push_names(&self.bytes, l.body_start, l.separators, &mut list);
            assert(parts(list@) =~= self@.names());
        }
        push_names(&p.bytes, more.body_start, more.separators, &mut by);
        assert(parts(by@) =~= p@.names());
        follow(&mut list, &by);
        let mut r = bytes_from(&self.bytes, 0, l.prefix_len);
        assert(r@ =~= self@.bytes.take(self@.prefix_len()));
        if list.len() > 0 {
            assert(parts(list@).len() > 0);
            append_backslashed(&mut r, &list);
        } else if l.is_rooted || more.is_rooted {
            r.push(92u8);
        }
        r
    }

    /// The path that another one leads to from this directory.
    pub fn join(&self, p: &FilePath) -> (r: FilePath)
        ensures
            r@ == joined_path(self@, p@),
    {
        let l = layout(&self.bytes, self.style);
        let more = layout(&p.bytes, p.style);
        if p.is_absolute() || more.prefix.is_some() {
            return p.copy();
        }
        let bytes = if l.is_verbatim && p.bytes.len() > 0 {
            self.join_verbatim(p)
        } else {
            let n = self.bytes.len();
            let to: usize = if more.is_rooted {
                l.prefix_len
            } else {
                n
            };
            let mut bytes = bytes_from(&self.bytes, 0, to);
            assert(bytes@ =~= self@.bytes.take(to as int));
            if !more.is_rooted && n > 0 && !separates(
                self.bytes[n - 1],
                component::all_separators(self.style),
            ) && !(l.prefix == Some(PartKind::Disk) && n == 2) {
                bytes.push(
                    match self.style {
                        PathStyle::Unix => 47u8,
                        PathStyle::Windows => 92u8,
                    },
                );
            }
            append(&mut bytes, &p.bytes);
            bytes
        };
        let r = FilePath { bytes, style: self.style };
        assert(r@ =~= joined_path(self@, p@));
        r
    }

    /// Whether the path leads to a directory or to something below it.
    pub fn starts_with(&self, dir: &FilePath) -> (b: bool)
        ensures
            b == is_within(self@, dir@),
    {
        let a = components_of(&dir.bytes, dir.style);
        let b = components_of(&self.bytes, self.style);
        let ghost x = dir@.components();
        let ghost y = self@.components();
        assert(parts(a@).len() == a@.len() && parts(b@).len() == b@.len());
        if a.len() > b.len() {
            return false;
        }
        let mut i: usize = 0;
        while i < a.len()
            invariant
                i <= a@.len() <= b@.len(),
                x == dir@.components(),
                y == self@.components(),
                parts(a@) == x,
                parts(b@) == y,
                x.take(i as int) == y.take(i as int),
            decreases a@.len() - i,
        {
            assert(parts(a@)[i as int] == (a@[i as int].0, a@[i as int].1@));
            assert(parts(b@)[i as int] == (b@[i as int].0, b@[i as int].1@));
            let o = path::component_order(&a[i], &b[i]);
            proof {
                path::lemma_component_total(x[i as int], y[i as int]);
            }
            if o != PathOrder::Same {
                assert(x[i as int] != y.take(x.len() as int)[i as int]);
                return false;
            }
            assert(x.take(i + 1) =~= x.take(i as int).push(x[i as int]));
            assert(y.take(i + 1) =~= y.take(i as int).push(y[i as int]));
            i = i + 1;
        }
        assert(x.take(i as int) =~= x);
        true
    }

    /// The path up to its last component.
    pub fn parent(&self) -> (r: Option<FilePath>)
        ensures
            r is Some <==> parent(self@) is Some,
            r is Some ==> r->0@ == parent(self@)->0,
    {
        let v = &self.bytes;
        let l = layout(v, self.style);
        let by = l.separators;
        let start: usize = l.body_start;
        let ghost all = name_ends(v@.skip(start as int), start as int, by);
        // Whether one name ends up to `i`, whether two do, where the last of them ends and where
        // the one before does.
        let mut one = false;
        let mut two = false;
        let mut last: usize = start;
        let mut before: usize = start;
        let mut i: usize = start;
        let ghost mut seen: Seq<int> = Seq::empty();
        assert(all =~= seen + all);
        while i < v.len()
            invariant
                start <= i <= v@.len(),
                all == seen + name_ends(v@.skip(i as int), i as int, by),
                one == (seen.len() >= 1),
                two == (seen.len() >= 2),
                last <= v@.len(),
                before <= v@.len(),
                one ==> last == seen.last(),
                two ==> before == seen[seen.len() - 2],
                !two ==> before == start,
            decreases v@.len() - i,
        {
            let ghost rest = v@.skip(i as int);
            let end = part_end(v, i, by);
            let ghost n = end - i;
            if end == i {
                assert(rest.drop_first() =~= v@.skip(i + 1));
                i = i + 1;
            } else {
                proof {
                    assert(rest.skip(n) =~= v@.skip(end as int));
                }
                if end - i == 1 && v[i] == 46u8 && by != Separators::Backslash {
                    assert(rest.take(n) =~= seq![46u8]);
                } else {
                    proof {
                        if rest.take(n) == seq![46u8] {
                            assert(rest.take(n).len() == n);
                            assert(rest.take(n)[0] == 46u8);
                        }
                        assert(seen + name_ends(rest, i as int, by) =~= seen.push(end as int)
                            + name_ends(v@.skip(end as int), end as int, by));
                        seen = seen.push(end as int);
                    }
                    if one {
                        before = last;
                        two = true;
                    }
                    one = true;
                    last = end;
                }
                i = end;
            }
        }
        proof {
            assert(v@.skip(i as int).len() == 0);
            assert(all =~= seen);
        }
        let to: usize = if one {
            before
        } else if l.is_dotted && l.prefix.is_none() {
            0
        } else {
            return None;
        };
        let bytes = bytes_from(v, 0, to);
        let r = FilePath { bytes, style: self.style };
        assert(r@.bytes =~= v@.take(to as int));
        assert(r@ =~= parent(self@)->0);
        Some(r)
    }
}

} // verus!
