//! Paths as bytes, and ordered sets of paths.
use crate::component::{bytes_from, components_of, parts, Component, PartKind, PathStyle, PathView};
use vstd::prelude::*;
use vstd::utf8::{encode_utf8, valid_utf8};

verus! {

/// `core::str::from_utf8` succeeds exactly on valid UTF-8.
#[verifier::external_body]
fn is_utf8(bytes: &[u8]) -> (b: bool)
    ensures
        b == valid_utf8(bytes@),
{
    core::str::from_utf8(bytes).is_ok()
}

/// A path, as the bytes that the file system knows it by, and by which rules they are read.
#[derive(Clone, Debug)]
pub struct FilePath {
    pub bytes: Vec<u8>,
    pub style: PathStyle,
}

impl View for FilePath {
    type V = PathView;

    open spec fn view(&self) -> PathView {
        PathView { style: self.style, bytes: self.bytes@ }
    }
}

/// Where a component stands among the kinds.
pub open spec fn rank(kind: PartKind) -> int {
    match kind {
        PartKind::Verbatim => 0,
        PartKind::VerbatimUnc => 1,
        PartKind::VerbatimDisk => 2,
        PartKind::Device => 3,
        PartKind::Unc => 4,
        PartKind::Disk => 5,
        PartKind::Root => 6,
        PartKind::Here => 7,
        PartKind::Up => 8,
        PartKind::Name => 9,
    }
}

/// Whether `a` comes before `b` in the lexicographic order of bytes.
pub open spec fn bytes_before(a: Seq<u8>, b: Seq<u8>) -> bool
    decreases a.len(),
{
    if b.len() == 0 {
        false
    } else if a.len() == 0 {
        true
    } else {
        a[0] < b[0] || (a[0] == b[0] && bytes_before(a.drop_first(), b.drop_first()))
    }
}

/// Whether one component comes before another: first by kind, then by their bytes.
pub open spec fn component_before(a: Component, b: Component) -> bool {
    rank(a.0) < rank(b.0) || (a.0 == b.0 && bytes_before(a.1, b.1))
}

/// Whether one list of components comes before another in lexicographic order.
pub open spec fn list_before(a: Seq<Component>, b: Seq<Component>) -> bool
    decreases a.len(),
{
    if b.len() == 0 {
        false
    } else if a.len() == 0 {
        true
    } else {
        component_before(a[0], b[0]) || (a[0] == b[0] && list_before(
            a.drop_first(),
            b.drop_first(),
        ))
    }
}

/// Whether one path comes before another in the order of paths.
pub open spec fn path_before(a: PathView, b: PathView) -> bool {
    list_before(a.components(), b.components())
}

/// Whether two texts name the same path.
pub open spec fn same_path(a: PathView, b: PathView) -> bool {
    a.components() == b.components()
}

proof fn lemma_bytes_total(a: Seq<u8>, b: Seq<u8>)
    ensures
        bytes_before(a, b) || bytes_before(b, a) || a == b,
        !(bytes_before(a, b) && bytes_before(b, a)),
        a == b ==> !bytes_before(a, b),
    decreases a.len(),
{
    if a.len() > 0 && b.len() > 0 {
        lemma_bytes_total(a.drop_first(), b.drop_first());
        if a[0] == b[0] && a.drop_first() == b.drop_first() {
            assert(a =~= seq![a[0]] + a.drop_first());
            assert(b =~= seq![b[0]] + b.drop_first());
        }
    } else if a.len() == 0 && b.len() == 0 {
        assert(a =~= b);
    }
}

proof fn lemma_bytes_transitive(a: Seq<u8>, b: Seq<u8>, c: Seq<u8>)
    requires
        bytes_before(a, b),
        bytes_before(b, c),
    ensures
        bytes_before(a, c),
    decreases a.len(),
{
    if a.len() > 0 && a[0] == b[0] && b[0] == c[0] {
        lemma_bytes_transitive(a.drop_first(), b.drop_first(), c.drop_first());
    }
}

/// Of two components, one comes before the other or they are equal.
pub proof fn lemma_component_total(a: Component, b: Component)
    ensures
        component_before(a, b) || component_before(b, a) || a == b,
        !(component_before(a, b) && component_before(b, a)),
        a == b ==> !component_before(a, b),
{
    lemma_bytes_total(a.1, b.1);
}

proof fn lemma_component_transitive(a: Component, b: Component, c: Component)
    requires
        component_before(a, b),
        component_before(b, c),
    ensures
        component_before(a, c),
{
    if a.0 == b.0 && b.0 == c.0 {
        lemma_bytes_transitive(a.1, b.1, c.1);
    }
}

proof fn lemma_list_total(a: Seq<Component>, b: Seq<Component>)
    ensures
        list_before(a, b) || list_before(b, a) || a == b,
        !(list_before(a, b) && list_before(b, a)),
        a == b ==> !list_before(a, b),
    decreases a.len(),
{
    if a.len() > 0 && b.len() > 0 {
        lemma_component_total(a[0], b[0]);
        lemma_list_total(a.drop_first(), b.drop_first());
        if a[0] == b[0] && a.drop_first() == b.drop_first() {
            assert(a =~= seq![a[0]] + a.drop_first());
            assert(b =~= seq![b[0]] + b.drop_first());
        }
    } else if a.len() == 0 && b.len() == 0 {
        assert(a =~= b);
    }
}

proof fn lemma_list_transitive(a: Seq<Component>, b: Seq<Component>, c: Seq<Component>)
    requires
        list_before(a, b),
        list_before(b, c),
    ensures
        list_before(a, c),
    decreases a.len(),
{
    if a.len() > 0 {
        if component_before(a[0], b[0]) && component_before(b[0], c[0]) {
            lemma_component_transitive(a[0], b[0], c[0]);
        } else if a[0] == b[0] && b[0] == c[0] && !component_before(a[0], b[0])
            && !component_before(b[0], c[0]) {
            lemma_list_transitive(a.drop_first(), b.drop_first(), c.drop_first());
        } else if a[0] == b[0] && b[0] == c[0] {
            lemma_component_total(a[0], b[0]);
        }
    }
}

/// Of two paths, one comes before the other or they are the same, and only one of these holds.
pub proof fn paths_are_totally_ordered(a: PathView, b: PathView)
    ensures
        path_before(a, b) || path_before(b, a) || same_path(a, b),
        !(path_before(a, b) && path_before(b, a)),
        same_path(a, b) ==> !path_before(a, b),
{
    lemma_list_total(a.components(), b.components());
}

/// The order of paths is transitive.
pub proof fn path_order_is_transitive(a: PathView, b: PathView, c: PathView)
    requires
        path_before(a, b),
        path_before(b, c),
    ensures
        path_before(a, c),
{
    lemma_list_transitive(a.components(), b.components(), c.components());
}

/// How two paths stand to each other.
#[derive(Clone, Copy, Debug, PartialEq, Eq, Structural)]
pub enum PathOrder {
    Before,
    Same,
    After,
}

/// Whether `o` is how `a` stands to `b` in an order.
pub open spec fn is_order(o: PathOrder, before: bool, same: bool) -> bool {
    match o {
        PathOrder::Before => before,
        PathOrder::Same => same,
        PathOrder::After => !before && !same,
    }
}

fn bytes_order(a: &Vec<u8>, b: &Vec<u8>) -> (o: PathOrder)
    ensures
        is_order(o, bytes_before(a@, b@), a@ == b@),
        o == PathOrder::After <==> bytes_before(b@, a@),
{
    let mut i: usize = 0;
    assert(a@.skip(0) =~= a@);
    assert(b@.skip(0) =~= b@);
    while i < a.len() && i < b.len() && a[i] == b[i]
        invariant
            i <= a@.len(),
            i <= b@.len(),
            a@.take(i as int) == b@.take(i as int),
            bytes_before(a@, b@) == bytes_before(a@.skip(i as int), b@.skip(i as int)),
            bytes_before(b@, a@) == bytes_before(b@.skip(i as int), a@.skip(i as int)),
        decreases a@.len() - i,
    {
        proof {
            assert(a@.skip(i as int).drop_first() =~= a@.skip(i + 1));
            assert(b@.skip(i as int).drop_first() =~= b@.skip(i + 1));
            assert(a@.take(i + 1) =~= a@.take(i as int).push(a@[i as int]));
            assert(b@.take(i + 1) =~= b@.take(i as int).push(b@[i as int]));
        }
        i = i + 1;
    }
    proof {
        lemma_bytes_total(a@, b@);
        if i == a@.len() && i == b@.len() {
            assert(a@.take(i as int) =~= a@);
            assert(b@.take(i as int) =~= b@);
        }
    }
    if i == a.len() {
        if i == b.len() {
            PathOrder::Same
        } else {
            PathOrder::Before
        }
    } else if i == b.len() {
        PathOrder::After
    } else if a[i] < b[i] {
        PathOrder::Before
    } else {
        PathOrder::After
    }
}

pub(crate) fn rank_of(kind: PartKind) -> (r: u8)
    ensures
        r == rank(kind),
{
    match kind {
        PartKind::Verbatim => 0,
        PartKind::VerbatimUnc => 1,
        PartKind::VerbatimDisk => 2,
        PartKind::Device => 3,
        PartKind::Unc => 4,
        PartKind::Disk => 5,
        PartKind::Root => 6,
        PartKind::Here => 7,
        PartKind::Up => 8,
        PartKind::Name => 9,
    }
}

pub(crate) fn component_order(a: &(PartKind, Vec<u8>), b: &(PartKind, Vec<u8>)) -> (o: PathOrder)
    ensures
        is_order(o, component_before((a.0, a.1@), (b.0, b.1@)), (a.0, a.1@) == (b.0, b.1@)),
        o == PathOrder::After <==> component_before((b.0, b.1@), (a.0, a.1@)),
{
    let x: u8 = rank_of(a.0);
    let y: u8 = rank_of(b.0);
    if x < y {
        PathOrder::Before
    } else if y < x {
        PathOrder::After
    } else {
        bytes_order(&a.1, &b.1)
    }
}

fn list_order(a: &Vec<(PartKind, Vec<u8>)>, b: &Vec<(PartKind, Vec<u8>)>) -> (o: PathOrder)
    ensures
        is_order(o, list_before(parts(a@), parts(b@)), parts(a@) == parts(b@)),
{
    let ghost x = parts(a@);
    let ghost y = parts(b@);
    let mut i: usize = 0;
    assert(x.skip(0) =~= x);
    assert(y.skip(0) =~= y);
    while i < a.len() && i < b.len()
        invariant
            i <= a@.len(),
            i <= b@.len(),
            x == parts(a@),
            y == parts(b@),
            x.take(i as int) == y.take(i as int),
            list_before(x, y) == list_before(x.skip(i as int), y.skip(i as int)),
            list_before(y, x) == list_before(y.skip(i as int), x.skip(i as int)),
        decreases a@.len() - i,
    {
        let o = component_order(&a[i], &b[i]);
        proof {
            assert(x.skip(i as int).drop_first() =~= x.skip(i + 1));
            assert(y.skip(i as int).drop_first() =~= y.skip(i + 1));
            assert(x.skip(i as int)[0] == x[i as int]);
            assert(y.skip(i as int)[0] == y[i as int]);
            lemma_component_total(x[i as int], y[i as int]);
            lemma_list_total(x, y);
        }
        if o != PathOrder::Same {
            return o;
        }
        proof {
            assert(x.take(i + 1) =~= x.take(i as int).push(x[i as int]));
            assert(y.take(i + 1) =~= y.take(i as int).push(y[i as int]));
        }
        i = i + 1;
    }
    proof {
        lemma_list_total(x, y);
        if i == a@.len() && i == b@.len() {
            assert(x.take(i as int) =~= x);
            assert(y.take(i as int) =~= y);
        }
    }
    if i < b.len() {
        PathOrder::Before
    } else if i < a.len() {
        PathOrder::After
    } else {
        PathOrder::Same
    }
}

/// The path that a text names.
pub open spec fn text_path(s: Seq<char>, style: PathStyle) -> PathView {
    PathView { style, bytes: encode_utf8(s) }
}

impl FilePath {
    /// The path that a text names.
    pub fn from_text(s: &str, style: PathStyle) -> (r: FilePath)
        ensures
            r@ == text_path(s@, style),
    {
        FilePath { bytes: s.as_bytes_vec(), style }
    }

    /// How the path stands to another in the order of paths.
    pub fn order(&self, other: &FilePath) -> (o: PathOrder)
        ensures
            is_order(o, path_before(self@, other@), same_path(self@, other@)),
    {
        list_order(
            &components_of(&self.bytes, self.style),
            &components_of(&other.bytes, other.style),
        )
    }

    /// A path with the same bytes.
    pub fn copy(&self) -> (r: FilePath)
        ensures
            r@ == self@,
    {
        let r = bytes_from(&self.bytes, 0, self.bytes.len());
        assert(r@ =~= self@.bytes);
        FilePath { bytes: r, style: self.style }
    }
}

/// The paths of a list.
pub open spec fn views(v: Seq<FilePath>) -> Seq<PathView> {
    Seq::new(v.len(), |i: int| v[i]@)
}

/// Whether each path comes before all that follow it.
pub open spec fn ascending(s: Seq<PathView>) -> bool {
    forall|i: int, j: int| 0 <= i < j < s.len() ==> path_before(#[trigger] s[i], #[trigger] s[j])
}

/// Whether a path is among those of a list.
pub open spec fn has_path(s: Seq<PathView>, p: PathView) -> bool {
    exists|i: int| 0 <= i < s.len() && same_path(#[trigger] s[i], p)
}

/// A set of paths, in ascending order.
#[derive(Debug)]
pub struct FileSet {
    paths: Vec<FilePath>,
}

impl FileSet {
    #[verifier::type_invariant]
    spec fn holds(self) -> bool {
        ascending(views(self.paths@))
    }

    /// The paths of the set, in order.
    pub closed spec fn items(self) -> Seq<PathView> {
        views(self.paths@)
    }

    /// The set without paths.
    pub fn new() -> (r: FileSet)
        ensures
            r.items() == Seq::<PathView>::empty(),
    {
        let r = FileSet { paths: Vec::new() };
        assert(r.items() =~= Seq::<PathView>::empty());
        r
    }

    /// The number of paths.
    pub fn len(&self) -> (n: usize)
        ensures
            n == self.items().len(),
            ascending(self.items()),
    {
        proof {
            use_type_invariant(&*self);
        }
        self.paths.len()
    }

    /// The path at a position.
    pub fn path_at(&self, i: usize) -> (p: &FilePath)
        requires
            i < self.items().len(),
        ensures
            p@ == self.items()[i as int],
    {
        &self.paths[i]
    }

    /// The position of the first path that does not come before `p`.
    fn lower_bound(&self, p: &FilePath) -> (at: usize)
        ensures
            at <= self.items().len(),
            ascending(self.items()),
            forall|i: int| 0 <= i < at ==> path_before(#[trigger] self.items()[i], p@),
            forall|i: int| at <= i < self.items().len() ==> !path_before(#[trigger] self.items()[i], p@),
    {
        proof {
            use_type_invariant(&*self);
        }
        let key = components_of(&p.bytes, p.style);
        let mut lo: usize = 0;
        let mut hi: usize = self.paths.len();
        while lo < hi
            invariant
                lo <= hi <= self.paths@.len(),
                parts(key@) == p@.components(),
                ascending(self.items()),
                self.items().len() == self.paths@.len(),
                forall|i: int| 0 <= i < lo ==> path_before(#[trigger] self.items()[i], p@),
                forall|i: int|
                    hi <= i < self.items().len() ==> !path_before(#[trigger] self.items()[i], p@),
            decreases hi - lo,
        {
            let mid: usize = lo + (hi - lo) / 2;
            let o = list_order(
                &components_of(&self.paths[mid].bytes, self.paths[mid].style),
                &key,
            );
            let ghost m = self.items()[mid as int];
            if o == PathOrder::Before {
                proof {
                    assert(path_before(m, p@));
                    assert forall|i: int| 0 <= i < mid + 1 implies path_before(
                        #[trigger] self.items()[i],
                        p@,
                    ) by {
                        if i < mid {
                            assert(path_before(self.items()[i], self.items()[mid as int]));
                            path_order_is_transitive(self.items()[i], m, p@);
                        }
                    }
                }
                lo = mid + 1;
            } else {
                proof {
                    paths_are_totally_ordered(m, p@);
                    assert(!path_before(m, p@));
                    assert forall|i: int| mid <= i < self.items().len() implies !path_before(
                        #[trigger] self.items()[i],
                        p@,
                    ) by {
                        if i > mid && path_before(self.items()[i], p@) {
                            assert(path_before(self.items()[mid as int], self.items()[i]));
                            path_order_is_transitive(m, self.items()[i], p@);
                        }
                    }
                }
                hi = mid;
            }
        }
        lo
    }

    /// Whether a path is in the set.
    pub fn contains(&self, p: &FilePath) -> (b: bool)
        ensures
            b == has_path(self.items(), p@),
    {
        let at = self.lower_bound(p);
        proof {
            assert forall|i: int| 0 <= i < self.items().len() && i != at implies !same_path(
                #[trigger] self.items()[i],
                p@,
            ) by {
                if i < at {
                    paths_are_totally_ordered(self.items()[i], p@);
                } else {
                    assert(path_before(self.items()[at as int], self.items()[i]));
                    if same_path(self.items()[i], p@) {
                        assert(path_before(self.items()[at as int], p@));
                    }
                }
            }
        }
        if at < self.paths.len() {
            let o = self.paths[at].order(p);
            assert(self.items()[at as int] == self.paths@[at as int]@);
            proof {
                paths_are_totally_ordered(self.items()[at as int], p@);
            }
            o == PathOrder::Same
        } else {
            false
        }
    }

    /// The set with a path put in where it belongs; the set as it is where the path is there.
    pub fn with(self, p: FilePath) -> (r: FileSet)
        ensures
            has_path(self.items(), p@) ==> r.items() == self.items(),
            !has_path(self.items(), p@) ==> exists|k: int|
                0 <= k <= self.items().len() && r.items() == #[trigger] self.items().insert(k, p@),
            ascending(r.items()),
    {
        let at = self.lower_bound(&p);
        if self.contains(&p) {
            return self;
        }
        let ghost before = self.items();
        let FileSet { mut paths } = self;
        paths.insert(at, p);
        proof {
            assert(views(paths@) =~= before.insert(at as int, p@));
            let now = before.insert(at as int, p@);
            assert forall|i: int, j: int| 0 <= i < j < now.len() implies path_before(
                #[trigger] now[i],
                #[trigger] now[j],
            ) by {
                if j == at {
                    assert(path_before(before[i], p@));
                } else if i == at {
                    assert(!path_before(before[j - 1], p@));
                    assert(!same_path(before[j - 1], p@));
                    paths_are_totally_ordered(before[j - 1], p@);
                } else {
                    let a = if i < at { i } else { i - 1 };
                    let b = if j < at { j } else { j - 1 };
                    assert(path_before(before[a], before[b]));
                }
            }
        }
        FileSet { paths }
    }
}

/// Whether an item stands in a list before a position.
spec fn stands_before(items: Seq<PathView>, i: int, item: PathView) -> bool {
    exists|k: int| 0 <= k < i && #[trigger] items[k] == item
}

/// The items for which the flag at the same position is set, in order.
pub open spec fn flagged(items: Seq<PathView>, keep: Seq<bool>) -> Seq<PathView>
    decreases items.len(),
{
    if items.len() == 0 {
        Seq::empty()
    } else {
        let rest = flagged(items.drop_last(), keep.drop_last());
        if keep.last() {
            rest.push(items.last())
        } else {
            rest
        }
    }
}

impl FileSet {
    /// The paths of the set for which the flag at the same position is set.
    pub fn retained(&self, keep: &Vec<bool>) -> (r: FileSet)
        requires
            keep@.len() == self.items().len(),
        ensures
            r.items() == flagged(self.items(), keep@),
    {
        proof {
            use_type_invariant(&*self);
        }
        let ghost all = self.items();
        let mut paths: Vec<FilePath> = Vec::new();
        let mut i: usize = 0;
        assert(views(paths@) =~= flagged(all.take(0), keep@.take(0)));
        while i < self.paths.len()
            invariant
                i <= self.paths@.len(),
                all == self.items(),
                all.len() == self.paths@.len(),
                keep@.len() == all.len(),
                ascending(all),
                ascending(views(paths@)),
                views(paths@) == flagged(all.take(i as int), keep@.take(i as int)),
                forall|j: int|
                    0 <= j < paths@.len() ==> stands_before(all, i as int, (#[trigger] paths@[j])@),
            decreases self.paths@.len() - i,
        {
            let ghost before = paths@;
            proof {
                assert(all.take(i + 1).drop_last() =~= all.take(i as int));
                assert(keep@.take(i + 1).drop_last() =~= keep@.take(i as int));
            }
            if keep[i] {
                let p = self.paths[i].copy();
                paths.push(p);
                proof {
                    assert(views(paths@) =~= views(before).push(p@));
                    let v = views(paths@);
                    assert forall|a: int, b: int| 0 <= a < b < v.len() implies path_before(
                        #[trigger] v[a],
                        #[trigger] v[b],
                    ) by {
                        if b == before.len() {
                            assert(stands_before(all, i as int, before[a]@));
                            let k = choose|k: int|
                                0 <= k < i && #[trigger] all[k] == before[a]@;
                            assert(path_before(all[k], all[i as int]));
                            assert(v[a] == before[a]@);
                        } else {
                            assert(path_before(views(before)[a], views(before)[b]));
                        }
                    }
                }
            }
            proof {
                assert forall|j: int| 0 <= j < paths@.len() implies stands_before(
                    all,
                    i + 1,
                    (#[trigger] paths@[j])@,
                ) by {
                    if j == before.len() {
                        assert(all[i as int] == paths@[j]@);
                    } else {
                        assert(stands_before(all, i as int, before[j]@));
                        let k = choose|k: int| 0 <= k < i && #[trigger] all[k] == before[j]@;
                        assert(all[k] == paths@[j]@);
                    }
                }
            }
            i = i + 1;
        }
        proof {
            assert(all.take(all.len() as int) =~= all);
            assert(keep@.take(all.len() as int) =~= keep@);
        }
        FileSet { paths }
    }
}

/// A path without a leading `./`; a path that is no valid text stays as it is.
pub open spec fn without_dot(p: PathView) -> PathView {
    if valid_utf8(p.bytes) && p.bytes.len() >= 2 && p.bytes[0] == 46u8 && p.bytes[1] == 47u8 {
        PathView { style: p.style, bytes: p.bytes.skip(2) }
    } else {
        p
    }
}

impl FilePath {
    /// The path without a leading `./`.
    pub fn strip_dot(&self) -> (r: FilePath)
        ensures
            r@ == without_dot(self@),
    {
        if self.bytes.len() >= 2 && self.bytes[0] == 46u8 && self.bytes[1] == 47u8 && is_utf8(
            self.bytes.as_slice(),
        ) {
            let r = bytes_from(&self.bytes, 2, self.bytes.len());
            assert(r@ =~= self@.bytes.skip(2));
            FilePath { bytes: r, style: self.style }
        } else {
            self.copy()
        }
    }
}

/// Whether `set` holds the paths of a list, each once and in order, in one of the forms in which
/// the list has it.
pub open spec fn is_set_of(set: Seq<PathView>, list: Seq<PathView>) -> bool {
    &&& ascending(set)
    &&& forall|i: int| 0 <= i < set.len() ==> list.contains(#[trigger] set[i])
    &&& forall|i: int| 0 <= i < list.len() ==> has_path(set, #[trigger] list[i])
}

/// A set of the paths of a list, with one path more put in, is a set of the longer list.
proof fn lemma_put_in(before: Seq<PathView>, list: Seq<PathView>, p: PathView, after: Seq<PathView>)
    requires
        is_set_of(before, list),
        ascending(after),
        has_path(before, p) ==> after == before,
        !has_path(before, p) ==> exists|k: int|
            0 <= k <= before.len() && after == #[trigger] before.insert(k, p),
    ensures
        is_set_of(after, list.push(p)),
{
    let all = list.push(p);
    assert(all[list.len() as int] == p);
    assert forall|q: PathView| list.contains(q) implies #[trigger] all.contains(q) by {
        let i = choose|i: int| 0 <= i < list.len() && list[i] == q;
        assert(all[i] == q);
    }
    if has_path(before, p) {
        assert forall|j: int| 0 <= j < all.len() implies has_path(after, #[trigger] all[j]) by {
            if j < list.len() {
                assert(all[j] == list[j]);
            }
        }
    } else {
        let k = choose|k: int| 0 <= k <= before.len() && after == #[trigger] before.insert(k, p);
        assert forall|j: int| 0 <= j < after.len() implies all.contains(#[trigger] after[j]) by {
            if j != k {
                let a = if j < k { j } else { j - 1 };
                assert(list.contains(before[a]));
            }
        }
        assert(same_path(after[k], p));
        assert forall|j: int| 0 <= j < all.len() implies has_path(after, #[trigger] all[j]) by {
            if j < list.len() {
                assert(has_path(before, list[j]));
                let a = choose|a: int| 0 <= a < before.len() && same_path(
                    #[trigger] before[a],
                    list[j],
                );
                let b = if a < k { a } else { a + 1 };
                assert(same_path(after[b], all[j]));
            }
        }
    }
}

impl FileSet {
    /// The set with the paths of a list put in.
    pub fn extended(self, list: &Vec<FilePath>) -> (r: FileSet)
        ensures
            is_set_of(r.items(), self.items() + views(list@)),
    {
        let ghost start = self.items();
        let ghost all = views(list@);
        let n: usize = self.len();
        proof {
            assert(start + all.take(0) =~= start);
            assert forall|i: int| 0 <= i < n implies has_path(start, #[trigger] start[i]) by {
                assert(same_path(start[i], start[i]));
            }
        }
        let mut r = self;
        let mut i: usize = 0;
        while i < list.len()
            invariant
                i <= list@.len(),
                all == views(list@),
                is_set_of(r.items(), start + all.take(i as int)),
            decreases list@.len() - i,
        {
            let ghost before = r.items();
            r = r.with(list[i].copy());
            proof {
                lemma_put_in(before, start + all.take(i as int), all[i as int], r.items());
                assert((start + all.take(i as int)).push(all[i as int]) =~= start + all.take(
                    i + 1,
                ));
            }
            i = i + 1;
        }
        assert(all.take(i as int) =~= all);
        r
    }
}

/// A set of a set of one list and of more paths is a set of all the paths.
pub proof fn lemma_set_of_set(
    middle: Seq<PathView>,
    list: Seq<PathView>,
    more: Seq<PathView>,
    set: Seq<PathView>,
)
    requires
        is_set_of(middle, list),
        is_set_of(set, middle + more),
    ensures
        is_set_of(set, list + more),
{
    let all = list + more;
    assert forall|i: int| 0 <= i < set.len() implies all.contains(#[trigger] set[i]) by {
        assert((middle + more).contains(set[i]));
        let k = choose|k: int| 0 <= k < (middle + more).len() && (middle + more)[k] == set[i];
        if k < middle.len() {
            assert(list.contains(middle[k]));
            let m = choose|m: int| 0 <= m < list.len() && list[m] == middle[k];
            assert(all[m] == set[i]);
        } else {
            assert(all[k - middle.len() + list.len()] == set[i]);
        }
    }
    assert forall|i: int| 0 <= i < all.len() implies has_path(set, #[trigger] all[i]) by {
        if i < list.len() {
            assert(has_path(middle, list[i]));
            let k = choose|k: int| 0 <= k < middle.len() && same_path(#[trigger] middle[k], list[i]);
            assert((middle + more)[k] == middle[k]);
            assert(has_path(set, (middle + more)[k]));
            let m = choose|m: int| 0 <= m < set.len() && same_path(#[trigger] set[m], middle[k]);
            assert(same_path(set[m], all[i]));
        } else {
            assert((middle + more)[i - list.len() + middle.len()] == all[i]);
        }
    }
}

/// The set of the paths of a list.
pub fn collect(list: &Vec<FilePath>) -> (r: FileSet)
    ensures
        is_set_of(r.items(), views(list@)),
{
    let none = FileSet::new();
    assert(none.items() + views(list@) =~= views(list@));
    none.extended(list)
}

} // verus!
