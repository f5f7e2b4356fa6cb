//! Sets of names that remember the order of insertion.
use crate::ordered_map;
use crate::text;
use indexmap::IndexSet;
use vstd::prelude::*;

verus! {

/// The insertion-ordered hash set of the `indexmap` crate, seen as an opaque type.
#[verifier::external_type_specification]
#[verifier::external_body]
#[verifier::reject_recursive_types(T)]
#[verifier::reject_recursive_types(S)]
pub struct ExIndexSet<T, S>(IndexSet<T, S>);

/// The names of a set, in the order in which the set walks them.
pub uninterp spec fn set_names(s: IndexSet<String>) -> Seq<Seq<char>>;

/// `IndexSet::new` makes a set without names.
#[verifier::external_body]
fn set_new() -> (s: IndexSet<String>)
    ensures
        set_names(s) == Seq::<Seq<char>>::empty(),
{
    IndexSet::new()
}

/// `IndexSet::insert` puts a new name last, and leaves the set as it is where the name is there.
#[verifier::external_body]
fn set_insert(s: &mut IndexSet<String>, name: String)
    ensures
        set_names(*final(s)) == if set_names(*old(s)).contains(name@) {
            set_names(*old(s))
        } else {
            set_names(*old(s)).push(name@)
        },
{
    s.insert(name);
}

/// `IndexSet::contains` says whether a name is in the set.
#[verifier::external_body]
fn set_contains(s: &IndexSet<String>, name: &str) -> (b: bool)
    ensures
        b == set_names(*s).contains(name@),
{
    s.contains(name)
}

/// `IndexSet::len` counts the names.
#[verifier::external_body]
fn set_len(s: &IndexSet<String>) -> (n: usize)
    ensures
        n == set_names(*s).len(),
{
    s.len()
}

/// `IndexSet::get_index` gives the name at a position, or `None` past the last.
#[verifier::external_body]
fn set_at(s: &IndexSet<String>, i: usize) -> (r: Option<&String>)
    ensures
        r is Some <==> i < set_names(*s).len(),
        r is Some ==> r->0@ == set_names(*s)[i as int],
{
    s.get_index(i)
}

/// Names with more names put in, each where it is not there yet.
pub open spec fn with_names(names: Seq<Seq<char>>, more: Seq<Seq<char>>) -> Seq<Seq<char>>
    decreases more.len(),
{
    if more.len() == 0 {
        names
    } else {
        let before = with_names(names, more.drop_last());
        if before.contains(more.last()) {
            before
        } else {
            before.push(more.last())
        }
    }
}

/// Putting more names into those of a list without repetition is listing all of them without
/// repetition.
pub proof fn lemma_with_names(list: Seq<Seq<char>>, more: Seq<Seq<char>>)
    ensures
        with_names(ordered_map::firsts(list), more) == ordered_map::firsts(list + more),
    decreases more.len(),
{
    if more.len() == 0 {
        assert(list + more =~= list);
    } else {
        lemma_with_names(list, more.drop_last());
        ordered_map::lemma_firsts(list + more.drop_last());
        assert((list + more).drop_last() =~= list + more.drop_last());
    }
}

/// A set of names, in the order in which they were first put in.
#[derive(Debug)]
pub struct NameSet {
    names: IndexSet<String>,
}

impl NameSet {
    /// The names of the set, in order.
    pub closed spec fn items(self) -> Seq<Seq<char>> {
        set_names(self.names)
    }

    /// The set without names.
    pub fn new() -> (r: NameSet)
        ensures
            r.items() == Seq::<Seq<char>>::empty(),
    {
        NameSet { names: set_new() }
    }

    /// Whether a name is in the set.
    pub fn contains(&self, name: &str) -> (b: bool)
        ensures
            b == self.items().contains(name@),
    {
        set_contains(&self.names, name)
    }

    /// The name that was put in first.
    pub fn first(&self) -> (r: Option<&String>)
        ensures
            r is Some <==> self.items().len() > 0,
            r is Some ==> r->0@ == self.items()[0],
    {
        set_at(&self.names, 0)
    }

    /// Puts names in, in order.
    pub fn extend(&mut self, more: &Vec<String>)
        ensures
            final(self).items() == with_names(old(self).items(), text::texts(more@)),
    {
        let ghost start = self.items();
        let ghost all = text::texts(more@);
        let mut i: usize = 0;
        while i < more.len()
            invariant
                i <= more@.len(),
                all == text::texts(more@),
                self.items() == with_names(start, all.take(i as int)),
            decreases more@.len() - i,
        {
            assert(all.take(i + 1).drop_last() =~= all.take(i as int));
            set_insert(&mut self.names, more[i].clone());
            i = i + 1;
        }
        assert(all.take(i as int) =~= all);
    }

    /// The names as a list, in order.
    pub fn to_list(&self) -> (r: Vec<String>)
        ensures
            text::texts(r@) == self.items(),
    {
        let mut r: Vec<String> = Vec::new();
        let n: usize = set_len(&self.names);
        let ghost all = self.items();
        let mut i: usize = 0;
        assert(text::texts(r@) =~= all.take(0));
        while i < n
            invariant
                i <= n,
                n == all.len(),
                all == self.items(),
                text::texts(r@) == all.take(i as int),
            decreases n - i,
        {
            let ghost before = r@;
            r.push(set_at(&self.names, i).unwrap().clone());
            assert(text::texts(r@) =~= text::texts(before).push(all[i as int]));
            assert(all.take(i + 1) =~= all.take(i as int).push(all[i as int]));
            i = i + 1;
        }
        assert(all.take(n as int) =~= all);
        r
    }
}

} // verus!
