//! Paths as keys of maps: texts that are equal exactly where the paths are the same.
use crate::component::{components_of, parts, Component, PathView};
use crate::path::{rank, rank_of, same_path, FilePath};
use vstd::prelude::*;

verus! {

/// The character that each component begins with; no byte stands for it.
pub const MARK: char = '\u{2502}';

/// Bytes, each as the character of the same number.
pub open spec fn byte_chars(s: Seq<u8>) -> Seq<char> {
    Seq::new(s.len(), |i: int| s[i] as char)
}

/// A list of components as text.
pub open spec fn list_key(list: Seq<Component>) -> Seq<char>
    decreases list.len(),
{
    if list.len() == 0 {
        Seq::empty()
    } else {
        list_key(list.drop_last()) + seq![MARK, rank(list.last().0) as char] + byte_chars(
            list.last().1,
        )
    }
}

/// The key of a path.
pub open spec fn path_key(p: PathView) -> Seq<char> {
    list_key(p.components())
}

/// Where the last mark of two equal texts stands, they part in the same way.
proof fn lemma_last_component(a: Seq<char>, x: Component, b: Seq<char>, y: Component)
    requires
        a + seq![MARK, rank(x.0) as char] + byte_chars(x.1) == b + seq![MARK, rank(y.0) as char]
            + byte_chars(y.1),
    ensures
        a == b,
        x == y,
{
    let s = a + seq![MARK, rank(x.0) as char] + byte_chars(x.1);
    let t = b + seq![MARK, rank(y.0) as char] + byte_chars(y.1);
    let m = a.len() as int;
    let n = b.len() as int;
    assert(s.len() == m + 2 + x.1.len());
    assert(t.len() == n + 2 + y.1.len());
    assert(s == t);
    assert(s[m] == MARK && s[m + 1] == rank(x.0) as char);
    assert(t[n] == MARK && t[n + 1] == rank(y.0) as char);
    if m < n {
        assert(n > m + 1 ==> s[n] == x.1[n - m - 2] as char);
        assert(false);
    }
    if n < m {
        assert(m > n + 1 ==> t[m] == y.1[m - n - 2] as char);
        assert(false);
    }
    assert(a =~= s.take(m));
    assert(b =~= t.take(n));
    assert(x.1.len() == y.1.len());
    assert forall|i: int| 0 <= i < x.1.len() implies x.1[i] == y.1[i] by {
        assert(s[m + 2 + i] == x.1[i] as char);
        assert(t[n + 2 + i] == y.1[i] as char);
    }
    assert(x.1 =~= y.1);
}

proof fn lemma_list_key(a: Seq<Component>, b: Seq<Component>)
    requires
        list_key(a) == list_key(b),
    ensures
        a == b,
    decreases a.len(),
{
    if a.len() == 0 || b.len() == 0 {
        assert(a.len() > 0 ==> list_key(a).len() > 0);
        assert(b.len() > 0 ==> list_key(b).len() > 0);
        assert(a =~= b);
    } else {
        lemma_last_component(
            list_key(a.drop_last()),
            a.last(),
            list_key(b.drop_last()),
            b.last(),
        );
        lemma_list_key(a.drop_last(), b.drop_last());
        assert(a =~= a.drop_last().push(a.last()));
        assert(b =~= b.drop_last().push(b.last()));
    }
}

/// Two paths have the same key exactly where they are the same.
pub proof fn keys_tell_paths_apart(a: PathView, b: PathView)
    ensures
        path_key(a) == path_key(b) <==> same_path(a, b),
{
    if path_key(a) == path_key(b) {
        lemma_list_key(a.components(), b.components());
    }
}

impl FilePath {
    /// The key of the path.
    pub fn key(&self) -> (r: String)
        ensures
            r@ == path_key(self@),
    {
        let list = components_of(&self.bytes, self.style);
        let ghost all = parts(list@);
        let mut r = String::new();
        let mut i: usize = 0;
        assert(r@ =~= list_key(all.take(0)));
        while i < list.len()
            invariant
                i <= list@.len(),
                all == parts(list@),
                r@ == list_key(all.take(i as int)),
            decreases list@.len() - i,
        {
            let ghost before = r@;
            r.push(MARK);
            let kind: u8 = rank_of(list[i].0);
            r.push(kind as char);
            let ghost head = r@;
            let bytes = &list[i].1;
            let mut k: usize = 0;
            assert(r@ =~= head + byte_chars(bytes@.take(0)));
            while k < bytes.len()
                invariant
                    k <= bytes@.len(),
                    r@ == head + byte_chars(bytes@.take(k as int)),
                decreases bytes@.len() - k,
            {
                let b: u8 = bytes[k];
                r.push(b as char);
                assert(r@ =~= head + byte_chars(bytes@.take(k + 1)));
                k = k + 1;
            }
            proof {
                assert(bytes@.take(k as int) =~= bytes@);
                assert(all.take(i + 1).drop_last() =~= all.take(i as int));
                assert(r@ =~= before + seq![MARK, rank(all[i as int].0) as char] + byte_chars(
                    all[i as int].1,
                ));
            }
            i = i + 1;
        }
        assert(all.take(i as int) =~= all);
        r
    }
}

} // verus!
