//! Paths taken apart into a prefix, a root and names, by the rules of Unix or of Windows.
use vstd::prelude::*;

verus! {

/// By which rules a path is written.
#[derive(Clone, Copy, Debug, PartialEq, Eq, Structural)]
pub enum PathStyle {
    Unix,
    Windows,
}

/// A path: its bytes, and by which rules they are read.
#[verifier::ext_equal]
pub struct PathView {
    pub style: PathStyle,
    pub bytes: Seq<u8>,
}

/// Which bytes part the names of a path.
#[derive(Clone, Copy, Debug, PartialEq, Eq, Structural)]
pub enum Separators {
    Slash,
    Backslash,
    Either,
}

/// What a component of a path is, in the order of components. The first six are prefixes, which
/// only paths of Windows have.
#[derive(Clone, Copy, Debug, PartialEq, Eq, Structural)]
pub enum PartKind {
    /// `\\?\name`
    Verbatim,
    /// `\\?\UNC\server\share`
    VerbatimUnc,
    /// `\\?\C:`
    VerbatimDisk,
    /// `\\.\name`
    Device,
    /// `\\server\share`
    Unc,
    /// `C:`
    Disk,
    Root,
    /// The directory itself, a single dot.
    Here,
    /// The directory above, two dots.
    Up,
    Name,
}

/// A component: what it is, and the bytes that tell it from others of its kind.
pub type Component = (PartKind, Seq<u8>);

pub open spec fn is_separator(b: u8, by: Separators) -> bool {
    match by {
        Separators::Slash => b == 47u8,
        Separators::Backslash => b == 92u8,
        Separators::Either => b == 47u8 || b == 92u8,
    }
}

/// How many bytes `s` begins with that are no separator.
pub open spec fn part_len(s: Seq<u8>, by: Separators) -> nat
    decreases s.len(),
{
    if s.len() == 0 || is_separator(s[0], by) {
        0
    } else {
        1 + part_len(s.drop_first(), by)
    }
}

/// A part is no longer than the text that it stands in.
pub proof fn lemma_part_len(s: Seq<u8>, by: Separators)
    ensures
        part_len(s, by) <= s.len(),
        part_len(s, by) < s.len() ==> is_separator(s[part_len(s, by) as int], by),
    decreases s.len(),
{
    if s.len() != 0 && !is_separator(s[0], by) {
        lemma_part_len(s.drop_first(), by);
    }
}

/// A part is as long in any beginning of the text that holds it, and no longer in a shorter one.
pub proof fn lemma_part_len_take(s: Seq<u8>, m: int, by: Separators)
    requires
        0 <= m <= s.len(),
    ensures
        part_len(s, by) <= m ==> part_len(s.take(m), by) == part_len(s, by),
        part_len(s, by) >= m ==> part_len(s.take(m), by) == m,
    decreases s.len(),
{
    if m > 0 && !is_separator(s[0], by) {
        assert(s.take(m).drop_first() =~= s.drop_first().take(m - 1));
        lemma_part_len_take(s.drop_first(), m - 1, by);
    }
}

/// The component that a part between separators stands for.
pub open spec fn named(part: Seq<u8>) -> Component {
    if part == seq![46u8] {
        (PartKind::Here, Seq::empty())
    } else if part == seq![46u8, 46u8] {
        (PartKind::Up, Seq::empty())
    } else {
        (PartKind::Name, part)
    }
}

/// The components that the parts between separators stand for. Nothing between two separators is
/// none; a single dot is one only where a backslash alone is a separator.
pub open spec fn names(s: Seq<u8>, by: Separators) -> Seq<Component>
    decreases s.len(),
{
    let n = part_len(s, by) as int;
    if s.len() == 0 {
        Seq::empty()
    } else if n == 0 {
        names(s.drop_first(), by)
    } else {
        proof {
            lemma_part_len(s, by);
        }
        let rest = names(s.skip(n), by);
        if s.take(n) == seq![46u8] && by != Separators::Backslash {
            rest
        } else {
            seq![named(s.take(n))] + rest
        }
    }
}

pub open spec fn is_letter(b: u8) -> bool {
    65 <= b <= 90 || 97 <= b <= 122
}

/// A letter in upper case.
pub open spec fn upper(b: u8) -> u8 {
    if 97 <= b <= 122 {
        (b - 32) as u8
    } else {
        b
    }
}

/// Whether a letter and a colon stand at a position.
pub open spec fn is_drive(s: Seq<u8>, at: int) -> bool {
    at + 2 <= s.len() && is_letter(s[at]) && s[at + 1] == 58u8
}

/// How many bytes follow a separator at `end` up to the next.
pub open spec fn next_len(s: Seq<u8>, end: int, by: Separators) -> nat {
    if end < s.len() {
        part_len(s.skip(end + 1), by)
    } else {
        0
    }
}

/// With what prefix a path of Windows begins.
pub open spec fn prefix_kind(s: Seq<u8>) -> Option<PartKind> {
    let either = Separators::Either;
    if s.len() >= 2 && is_separator(s[0], either) && is_separator(s[1], either) {
        if s.len() >= 4 && s[0] == 92u8 && s[1] == 92u8 && s[2] == 63u8 && s[3] == 92u8 {
            if s.len() >= 8 && s[4] == 85u8 && s[5] == 78u8 && s[6] == 67u8 && is_separator(
                s[7],
                either,
            ) {
                Some(PartKind::VerbatimUnc)
            } else if is_drive(s, 4) && (s.len() == 6 || is_separator(s[6], either)) {
                Some(PartKind::VerbatimDisk)
            } else {
                Some(PartKind::Verbatim)
            }
        } else if s.len() >= 4 && s[2] == 46u8 && is_separator(s[3], either) {
            Some(PartKind::Device)
        } else {
            let n = part_len(s.skip(2), either) as int;
            if n > 0 && next_len(s, 2 + n, either) > 0 {
                Some(PartKind::Unc)
            } else {
                None
            }
        }
    } else if is_drive(s, 0) {
        Some(PartKind::Disk)
    } else {
        None
    }
}

/// Whether what follows a prefix is taken as it stands.
pub open spec fn is_verbatim(kind: PartKind) -> bool {
    kind == PartKind::Verbatim || kind == PartKind::VerbatimUnc || kind == PartKind::VerbatimDisk
}

/// Whether a prefix names a share of a server.
pub open spec fn is_share(kind: PartKind) -> bool {
    kind == PartKind::VerbatimUnc || kind == PartKind::Unc
}

/// Whether a prefix names a drive.
pub open spec fn is_disk(kind: PartKind) -> bool {
    kind == PartKind::VerbatimDisk || kind == PartKind::Disk
}

/// Which bytes part the names of a path with a prefix.
pub open spec fn separators_after(kind: PartKind) -> Separators {
    if is_verbatim(kind) {
        Separators::Backslash
    } else {
        Separators::Either
    }
}

/// Where the first name of a prefix begins.
pub open spec fn first_at(kind: PartKind) -> int {
    match kind {
        PartKind::Verbatim | PartKind::VerbatimDisk | PartKind::Device => 4,
        PartKind::VerbatimUnc => 8,
        PartKind::Unc => 2,
        _ => 0,
    }
}

/// Where the first name of a prefix ends.
pub open spec fn first_end(s: Seq<u8>, kind: PartKind) -> int {
    if is_disk(kind) {
        first_at(kind) + 1
    } else {
        first_at(kind) + part_len(s.skip(first_at(kind)), separators_after(kind))
    }
}

/// How long the share of a prefix is.
pub open spec fn share_len(s: Seq<u8>, kind: PartKind) -> nat {
    next_len(s, first_end(s, kind), separators_after(kind))
}

/// Where a prefix ends.
pub open spec fn prefix_end(s: Seq<u8>, kind: PartKind) -> int {
    if is_disk(kind) {
        first_end(s, kind) + 1
    } else if is_share(kind) && share_len(s, kind) > 0 {
        first_end(s, kind) + 1 + share_len(s, kind)
    } else {
        first_end(s, kind)
    }
}

/// The components of a prefix: one, or, for a share, two of the same kind. The letter of a drive
/// stands in upper case.
pub open spec fn prefix_components(s: Seq<u8>, kind: PartKind) -> Seq<Component> {
    let first = s.subrange(first_at(kind), first_end(s, kind));
    if is_disk(kind) {
        seq![(kind, seq![upper(s[first_at(kind)])])]
    } else if is_share(kind) {
        let end = prefix_end(s, kind);
        seq![(kind, first), (kind, s.subrange(end - share_len(s, kind), end))]
    } else {
        seq![(kind, first)]
    }
}

impl PathView {
    pub open spec fn prefix(self) -> Option<PartKind> {
        match self.style {
            PathStyle::Unix => None,
            PathStyle::Windows => prefix_kind(self.bytes),
        }
    }

    pub open spec fn prefix_len(self) -> int {
        match self.prefix() {
            Some(kind) => prefix_end(self.bytes, kind),
            None => 0,
        }
    }

    /// Whether the path begins with a prefix after which it is taken as it stands.
    pub open spec fn is_verbatim(self) -> bool {
        self.prefix() matches Some(kind) && is_verbatim(kind)
    }

    /// Which bytes end a directory.
    pub open spec fn all_separators(self) -> Separators {
        match self.style {
            PathStyle::Unix => Separators::Slash,
            PathStyle::Windows => Separators::Either,
        }
    }

    /// Which bytes part the names.
    pub open spec fn separators(self) -> Separators {
        if self.is_verbatim() {
            Separators::Backslash
        } else {
            self.all_separators()
        }
    }

    /// Whether a separator follows the prefix.
    pub open spec fn is_rooted(self) -> bool {
        self.prefix_len() < self.bytes.len() && is_separator(
            self.bytes[self.prefix_len()],
            self.all_separators(),
        )
    }

    /// Whether the prefix implies a root: it does unless it is a drive.
    pub open spec fn implies_root(self) -> bool {
        self.prefix() matches Some(kind) && kind != PartKind::Disk
    }

    /// Whether a relative path begins with a single dot, after its prefix.
    pub open spec fn is_dotted(self) -> bool {
        let rest = self.bytes.skip(self.prefix_len());
        !self.is_rooted() && !self.implies_root() && rest.take(
            part_len(rest, self.separators()) as int,
        ) == seq![46u8]
    }

    /// Where the names begin.
    pub open spec fn body_start(self) -> int {
        if self.is_rooted() || self.is_dotted() {
            self.prefix_len() + 1
        } else {
            self.prefix_len()
        }
    }

    /// The components before the names: the prefix, the root, or a leading dot of a relative path
    /// that has no prefix.
    pub open spec fn head(self) -> Seq<Component> {
        let prefix = match self.prefix() {
            Some(kind) => prefix_components(self.bytes, kind),
            None => Seq::empty(),
        };
        if self.is_rooted() || (self.implies_root() && !self.is_verbatim()) {
            prefix.push((PartKind::Root, Seq::empty()))
        } else if self.is_dotted() && self.prefix() is None {
            prefix.push((PartKind::Here, Seq::empty()))
        } else {
            prefix
        }
    }

    /// The components that name something.
    pub open spec fn names(self) -> Seq<Component> {
        names(self.bytes.skip(self.body_start()), self.separators())
    }

    /// The components of the path.
    #[verifier::opaque]
    pub open spec fn components(self) -> Seq<Component> {
        self.head() + self.names()
    }

    /// Whether the path leads to the same place from every directory.
    pub open spec fn is_absolute(self) -> bool {
        match self.style {
            PathStyle::Unix => self.is_rooted(),
            PathStyle::Windows => self.prefix() is Some && (self.is_rooted()
                || self.implies_root()),
        }
    }
}

/// A prefix lies within the path that it begins.
pub proof fn lemma_prefix(s: Seq<u8>)
    ensures
        prefix_kind(s) matches Some(kind) ==> {
            &&& 0 <= first_at(kind) <= first_end(s, kind) <= prefix_end(s, kind) <= s.len()
            &&& share_len(s, kind) <= prefix_end(s, kind) - first_end(s, kind) || !is_share(kind)
        },
{
    if let Some(kind) = prefix_kind(s) {
        let by = separators_after(kind);
        if !is_disk(kind) {
            lemma_part_len(s.skip(first_at(kind)), by);
            let end = first_end(s, kind);
            if end < s.len() {
                lemma_part_len(s.skip(end + 1), by);
            }
        }
    }
}

/// The names begin within the path.
pub proof fn lemma_body_start(p: PathView)
    ensures
        0 <= p.prefix_len() <= p.body_start() <= p.bytes.len(),
{
    lemma_prefix(p.bytes);
    let rest = p.bytes.skip(p.prefix_len());
    lemma_part_len(rest, p.separators());
    if p.is_dotted() {
        assert(rest.take(part_len(rest, p.separators()) as int).len() == 1);
    }
}

/// The components that a list of kinds and bytes holds.
pub open spec fn parts(v: Seq<(PartKind, Vec<u8>)>) -> Seq<Component> {
    Seq::new(v.len(), |i: int| (v[i].0, v[i].1@))
}

pub(crate) fn separates(b: u8, by: Separators) -> (r: bool)
    ensures
        r == is_separator(b, by),
{
    match by {
        Separators::Slash => b == 47u8,
        Separators::Backslash => b == 92u8,
        Separators::Either => b == 47u8 || b == 92u8,
    }
}

pub(crate) fn bytes_from(v: &Vec<u8>, from: usize, to: usize) -> (r: Vec<u8>)
    requires
        from <= to <= v@.len(),
    ensures
        r@ == v@.subrange(from as int, to as int),
{
    let mut r: Vec<u8> = Vec::new();
    let mut i: usize = from;
    while i < to
        invariant
            from <= i <= to <= v@.len(),
            r@ == v@.subrange(from as int, i as int),
        decreases to - i,
    {
        r.push(v[i]);
        i = i + 1;
    }
    r
}

pub(crate) fn part_end(v: &Vec<u8>, from: usize, by: Separators) -> (r: usize)
    requires
        from <= v@.len(),
    ensures
        r == from + part_len(v@.skip(from as int), by),
        from <= r <= v@.len(),
{
    let mut i: usize = from;
    while i < v.len() && !separates(v[i], by)
        invariant
            from <= i <= v@.len(),
            part_len(v@.skip(from as int), by) == (i - from) + part_len(v@.skip(i as int), by),
        decreases v@.len() - i,
    {
        assert(v@.skip(i as int).drop_first() =~= v@.skip(i + 1));
        i = i + 1;
    }
    i
}

/// Where the part behind a separator ends.
fn next_end(v: &Vec<u8>, end: usize, by: Separators) -> (r: usize)
    requires
        end <= v@.len(),
    ensures
        end <= r <= v@.len(),
        next_len(v@, end as int, by) > 0 ==> r == end + 1 + next_len(v@, end as int, by),
        next_len(v@, end as int, by) == 0 ==> r == end,
{
    if end < v.len() {
        let r = part_end(v, end + 1, by);
        if r > end + 1 {
            return r;
        }
    }
    end
}

fn drive_at(v: &Vec<u8>, at: usize) -> (b: bool)
    requires
        at < 8,
    ensures
        b == is_drive(v@, at as int),
{
    v.len() >= 2 + at && ((65u8 <= v[at] && v[at] <= 90u8) || (97u8 <= v[at] && v[at] <= 122u8))
        && v[at + 1] == 58u8
}

fn prefix_of(v: &Vec<u8>) -> (r: Option<PartKind>)
    ensures
        r == prefix_kind(v@),
{
    let either = Separators::Either;
    if v.len() >= 2 && separates(v[0], either) && separates(v[1], either) {
        if v.len() >= 4 && v[0] == 92u8 && v[1] == 92u8 && v[2] == 63u8 && v[3] == 92u8 {
            if v.len() >= 8 && v[4] == 85u8 && v[5] == 78u8 && v[6] == 67u8 && separates(
                v[7],
                either,
            ) {
                Some(PartKind::VerbatimUnc)
            } else if drive_at(v, 4) && (v.len() == 6 || separates(v[6], either)) {
                Some(PartKind::VerbatimDisk)
            } else {
                Some(PartKind::Verbatim)
            }
        } else if v.len() >= 4 && v[2] == 46u8 && separates(v[3], either) {
            Some(PartKind::Device)
        } else {
            let end = part_end(v, 2, either);
            if end > 2 && next_end(v, end, either) > end {
                Some(PartKind::Unc)
            } else {
                None
            }
        }
    } else if drive_at(v, 0) {
        Some(PartKind::Disk)
    } else {
        None
    }
}

fn verbatim(kind: PartKind) -> (b: bool)
    ensures
        b == is_verbatim(kind),
{
    matches!(kind, PartKind::Verbatim | PartKind::VerbatimUnc | PartKind::VerbatimDisk)
}

fn separators_behind(kind: PartKind) -> (r: Separators)
    ensures
        r == separators_after(kind),
{
    if verbatim(kind) {
        Separators::Backslash
    } else {
        Separators::Either
    }
}

/// Where the first name of a prefix begins and ends, and where the prefix ends.
fn prefix_bounds(v: &Vec<u8>, kind: PartKind) -> (r: (usize, usize, usize))
    requires
        prefix_kind(v@) == Some(kind),
    ensures
        r.0 == first_at(kind),
        r.1 == first_end(v@, kind),
        r.2 == prefix_end(v@, kind),
        r.0 <= r.1 <= r.2 <= v@.len(),
{
    proof {
        lemma_prefix(v@);
    }
    let by = separators_behind(kind);
    let from: usize = match kind {
        PartKind::Verbatim | PartKind::VerbatimDisk | PartKind::Device => 4,
        PartKind::VerbatimUnc => 8,
        PartKind::Unc => 2,
        _ => 0,
    };
    match kind {
        PartKind::Disk | PartKind::VerbatimDisk => (from, from + 1, from + 2),
        PartKind::Unc | PartKind::VerbatimUnc => {
            let end = part_end(v, from, by);
            (from, end, next_end(v, end, by))
        },
        _ => {
            let end = part_end(v, from, by);
            (from, end, end)
        },
    }
}

fn prefix_parts(v: &Vec<u8>, kind: PartKind) -> (r: Vec<(PartKind, Vec<u8>)>)
    requires
        prefix_kind(v@) == Some(kind),
    ensures
        parts(r@) == prefix_components(v@, kind),
{
    let (from, to, end) = prefix_bounds(v, kind);
    let mut r: Vec<(PartKind, Vec<u8>)> = Vec::new();
    match kind {
        PartKind::Disk | PartKind::VerbatimDisk => {
            let letter: u8 = v[from];
            let mut name: Vec<u8> = Vec::new();
            name.push(if 97u8 <= letter && letter <= 122u8 { letter - 32 } else { letter });
            assert(name@ =~= seq![upper(v@[from as int])]);
            r.push((kind, name));
        },
        PartKind::Unc | PartKind::VerbatimUnc => {
            r.push((kind, bytes_from(v, from, to)));
            let share = if end > to {
                bytes_from(v, to + 1, end)
            } else {
                Vec::new()
            };
            assert(share@ =~= v@.subrange(end - share_len(v@, kind), end as int));
            r.push((kind, share));
        },
        _ => {
            r.push((kind, bytes_from(v, from, to)));
        },
    }
    assert(parts(r@) =~= prefix_components(v@, kind));
    r
}

/// How a path is laid out.
pub struct Layout {
    pub prefix: Option<PartKind>,
    pub prefix_len: usize,
    pub is_verbatim: bool,
    pub separators: Separators,
    pub is_rooted: bool,
    pub is_dotted: bool,
    pub body_start: usize,
}

impl Layout {
    pub open spec fn is_of(self, p: PathView) -> bool {
        &&& self.prefix == p.prefix()
        &&& self.prefix_len == p.prefix_len()
        &&& self.is_verbatim == p.is_verbatim()
        &&& self.separators == p.separators()
        &&& self.is_rooted == p.is_rooted()
        &&& self.is_dotted == p.is_dotted()
        &&& self.body_start == p.body_start()
        &&& self.prefix_len <= self.body_start <= p.bytes.len()
    }
}

pub(crate) fn all_separators(style: PathStyle) -> (r: Separators)
    ensures
        r == (PathView { style, bytes: Seq::empty() }).all_separators(),
{
    match style {
        PathStyle::Unix => Separators::Slash,
        PathStyle::Windows => Separators::Either,
    }
}

pub(crate) fn layout(v: &Vec<u8>, style: PathStyle) -> (r: Layout)
    ensures
        r.is_of(PathView { style, bytes: v@ }),
{
    let ghost p = PathView { style, bytes: v@ };
    let prefix = match style {
        PathStyle::Unix => None,
        PathStyle::Windows => prefix_of(v),
    };
    proof {
        lemma_body_start(p);
    }
    let (prefix_len, is_verbatim): (usize, bool) = match prefix {
        Some(kind) => (prefix_bounds(v, kind).2, verbatim(kind)),
        None => (0, false),
    };
    let all = all_separators(style);
    let separators = if is_verbatim {
        Separators::Backslash
    } else {
        all
    };
    let is_rooted = prefix_len < v.len() && separates(v[prefix_len], all);
    let implies_root = match prefix {
        Some(kind) => kind != PartKind::Disk,
        None => false,
    };
    let end = part_end(v, prefix_len, separators);
    let is_dot = end - prefix_len == 1 && v[prefix_len] == 46u8;
    proof {
        let rest = v@.skip(prefix_len as int);
        let part = rest.take(end - prefix_len);
        if is_dot {
            assert(part =~= seq![46u8]);
        } else if part == seq![46u8] {
            assert(part.len() == 1 && part[0] == 46u8);
        }
    }
    let is_dotted = !is_rooted && !implies_root && is_dot;
    let body_start: usize = if is_rooted || is_dotted {
        prefix_len + 1
    } else {
        prefix_len
    };
    Layout { prefix, prefix_len, is_verbatim, separators, is_rooted, is_dotted, body_start }
}

fn named_part(v: &Vec<u8>, from: usize, to: usize) -> (r: (PartKind, Vec<u8>))
    requires
        from < to <= v@.len(),
    ensures
        (r.0, r.1@) == named(v@.subrange(from as int, to as int)),
{
    let part = bytes_from(v, from, to);
    proof {
        if part@.len() == 1 {
            assert(part@ =~= seq![part@[0]]);
        }
        if part@.len() == 2 {
            assert(part@ =~= seq![part@[0], part@[1]]);
        }
        assert(seq![46u8][0] == 46u8);
        assert(seq![46u8, 46u8][0] == 46u8 && seq![46u8, 46u8][1] == 46u8);
    }
    if part.len() == 1 && part[0] == 46u8 {
        (PartKind::Here, Vec::new())
    } else if part.len() == 2 && part[0] == 46u8 && part[1] == 46u8 {
        (PartKind::Up, Vec::new())
    } else {
        (PartKind::Name, part)
    }
}

pub(crate) fn push_names(
    v: &Vec<u8>,
    from: usize,
    by: Separators,
    r: &mut Vec<(PartKind, Vec<u8>)>,
)
    requires
        from <= v@.len(),
    ensures
        parts(final(r)@) == parts(old(r)@) + names(v@.skip(from as int), by),
{
    let ghost start = parts(r@);
    let ghost all = names(v@.skip(from as int), by);
    let mut i: usize = from;
    while i < v.len()
        invariant
            from <= i <= v@.len(),
            parts(r@) + names(v@.skip(i as int), by) == start + all,
        decreases v@.len() - i,
    {
        let ghost rest = v@.skip(i as int);
        let ghost before = parts(r@);
        let end = part_end(v, i, by);
        let ghost n = end - i;
        if end == i {
            assert(rest.drop_first() =~= v@.skip(i + 1));
            i = i + 1;
        } else {
            proof {
                assert(rest.take(n) =~= v@.subrange(i as int, end as int));
                assert(rest.skip(n) =~= v@.skip(end as int));
            }
            if end - i == 1 && v[i] == 46u8 && by != Separators::Backslash {
                assert(rest.take(n) =~= seq![46u8]);
            } else {
                proof {
                    if rest.take(n) == seq![46u8] {
                        assert(n == 1);
                        assert(rest.take(n)[0] == 46u8);
                    }
                }
                let part = named_part(v, i, end);
                r.push(part);
                proof {
                    assert(parts(r@) =~= before.push((part.0, part.1@)));
                    assert(parts(r@) + names(v@.skip(end as int), by) =~= before + names(rest, by));
                }
            }
            i = end;
        }
    }
    proof {
        assert(v@.skip(i as int).len() == 0);
        assert(parts(r@) + names(v@.skip(i as int), by) =~= parts(r@));
    }
}

pub(crate) fn components_of(v: &Vec<u8>, style: PathStyle) -> (r: Vec<(PartKind, Vec<u8>)>)
    ensures
        parts(r@) == (PathView { style, bytes: v@ }).components(),
{
    let ghost p = PathView { style, bytes: v@ };
    let l = layout(v, style);
    let mut r = match l.prefix {
        Some(kind) => prefix_parts(v, kind),
        None => Vec::new(),
    };
    let ghost prefix = match p.prefix() {
        Some(kind) => prefix_components(p.bytes, kind),
        None => Seq::empty(),
    };
    assert(parts(r@) =~= prefix);
    let has_root = l.is_rooted || match l.prefix {
        Some(kind) => kind != PartKind::Disk && !l.is_verbatim,
        None => false,
    };
    if has_root {
        r.push((PartKind::Root, Vec::new()));
        assert(parts(r@) =~= prefix.push((PartKind::Root, Seq::empty())));
    } else if l.is_dotted && l.prefix.is_none() {
        r.push((PartKind::Here, Vec::new()));
        assert(parts(r@) =~= prefix.push((PartKind::Here, Seq::empty())));
    }
    assert(parts(r@) == p.head());
    push_names(v, l.body_start, l.separators, &mut r);
    proof {
        reveal(PathView::components);
    }
    r
}

} // verus!
