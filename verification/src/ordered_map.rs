//! Maps from names to values that remember the order of insertion.
use indexmap::IndexMap;
use vstd::prelude::*;

verus! {

/// The insertion-ordered hash map of the `indexmap` crate, seen as an opaque type.
#[verifier::external_type_specification]
#[verifier::external_body]
#[verifier::reject_recursive_types(K)]
#[verifier::reject_recursive_types(V)]
#[verifier::reject_recursive_types(S)]
pub struct ExIndexMap<K, V, S>(IndexMap<K, V, S>);

/// The pairs of a map from names to slots, in the order in which the map walks them.
pub uninterp spec fn slot_entries(m: IndexMap<String, usize>) -> Seq<(Seq<char>, usize)>;

/// Whether `key` is the key of one of `entries`.
pub open spec fn has_key<V>(entries: Seq<(Seq<char>, V)>, key: Seq<char>) -> bool {
    exists|i: int| 0 <= i < entries.len() && #[trigger] entries[i].0 == key
}

/// The position of the first entry under `key`, where there is one.
pub open spec fn position_of<V>(entries: Seq<(Seq<char>, V)>, key: Seq<char>) -> int {
    choose|i: int|
        0 <= i < entries.len() && #[trigger] entries[i].0 == key && (forall|j: int|
            0 <= j < i ==> #[trigger] entries[j].0 != key)
}

/// `entries` with `value` under `key`: in place of the old value where the key is there,
/// else as a new last entry.
pub open spec fn with_entry<V>(
    entries: Seq<(Seq<char>, V)>,
    key: Seq<char>,
    value: V,
) -> Seq<(Seq<char>, V)> {
    if has_key(entries, key) {
        entries.update(position_of(entries, key), (key, value))
    } else {
        entries.push((key, value))
    }
}

/// Whether no two entries have the same key.
pub open spec fn distinct_keys<V>(entries: Seq<(Seq<char>, V)>) -> bool {
    forall|i: int, j: int|
        0 <= i < j < entries.len() ==> #[trigger] entries[i].0 != #[trigger] entries[j].0
}

/// The keys of `entries`, in order.
pub open spec fn keys<V>(entries: Seq<(Seq<char>, V)>) -> Seq<Seq<char>> {
    Seq::new(entries.len(), |i: int| entries[i].0)
}

/// The names without repetition, each where it comes first.
pub open spec fn firsts(names: Seq<Seq<char>>) -> Seq<Seq<char>>
    decreases names.len(),
{
    if names.len() == 0 {
        Seq::empty()
    } else if names.drop_last().contains(names.last()) {
        firsts(names.drop_last())
    } else {
        firsts(names.drop_last()).push(names.last())
    }
}

/// What is listed is listed without repetition too.
pub proof fn lemma_firsts(names: Seq<Seq<char>>)
    ensures
        forall|k: Seq<char>| #[trigger] firsts(names).contains(k) <==> names.contains(k),
        firsts(names).no_duplicates(),
    decreases names.len(),
{
    if names.len() > 0 {
        let rest = names.drop_last();
        let last = names.last();
        lemma_firsts(rest);
        assert(names =~= rest.push(last));
        assert forall|k: Seq<char>| #[trigger] firsts(names).contains(k) <==> names.contains(k) by {
            if names.contains(k) {
                let i = choose|i: int| 0 <= i < names.len() && names[i] == k;
                if i < rest.len() {
                    assert(rest[i] == k);
                    assert(firsts(rest).contains(k));
                    let j = choose|j: int| 0 <= j < firsts(rest).len() && firsts(rest)[j] == k;
                    assert(firsts(names)[j] == k);
                } else if rest.contains(last) {
                    assert(firsts(rest).contains(k));
                } else {
                    assert(firsts(names)[firsts(rest).len() as int] == k);
                }
            }
            if firsts(names).contains(k) {
                let j = choose|j: int| 0 <= j < firsts(names).len() && firsts(names)[j] == k;
                if j < firsts(rest).len() {
                    assert(firsts(rest)[j] == k);
                    assert(firsts(rest).contains(k));
                    assert(rest.contains(k));
                    let i = choose|i: int| 0 <= i < rest.len() && rest[i] == k;
                    assert(names[i] == k);
                } else {
                    assert(names[rest.len() as int] == k);
                }
            }
        }
        if !rest.contains(last) {
            assert(!firsts(rest).contains(last));
        }
    }
}

/// Putting names in one after the other leaves them in the order of their first occurrence.
pub proof fn lemma_with_entry_keys<V>(
    entries: Seq<(Seq<char>, V)>,
    names: Seq<Seq<char>>,
    key: Seq<char>,
    value: V,
)
    requires
        keys(entries) == firsts(names),
    ensures
        keys(with_entry(entries, key, value)) == firsts(names.push(key)),
        has_key(entries, key) <==> names.contains(key),
{
    assert(has_key(entries, key) <==> names.contains(key)) by {
        lemma_firsts(names);
        lemma_has_key(entries, key);
    }
    let longer = names.push(key);
    assert(longer.drop_last() =~= names);
    assert(longer.last() == key);
    let after = with_entry(entries, key, value);
    if names.contains(key) {
        assert(0 <= position_of(entries, key) < entries.len() && entries[position_of(
            entries,
            key,
        )].0 == key) by {
            lemma_first_position(entries, key);
        }
        let p = position_of(entries, key);
        assert(after == entries.update(p, (key, value)));
        assert(keys(after) =~= keys(entries));
        assert(firsts(longer) == firsts(names));
    } else {
        assert(after == entries.push((key, value)));
        assert(keys(after) =~= keys(entries).push(key));
        assert(firsts(longer) == firsts(names).push(key));
    }
}

/// Where the first entries of a map were put in already, the next one is new.
pub proof fn lemma_new_key<V, W>(done: Seq<(Seq<char>, W)>, all: Seq<(Seq<char>, V)>, at: int)
    requires
        distinct_keys(all),
        at == done.len(),
        at < all.len(),
        forall|i: int| 0 <= i < at ==> (#[trigger] done[i]).0 == all[i].0,
    ensures
        !has_key(done, all[at].0),
{
    if has_key(done, all[at].0) {
        let j = choose|j: int| 0 <= j < done.len() && #[trigger] done[j].0 == all[at].0;
        assert(all[j].0 != all[at].0);
    }
}

/// A key is there exactly where it is among the keys.
pub proof fn lemma_has_key<V>(entries: Seq<(Seq<char>, V)>, key: Seq<char>)
    ensures
        has_key(entries, key) <==> keys(entries).contains(key),
{
    if has_key(entries, key) {
        let i = choose|i: int| 0 <= i < entries.len() && #[trigger] entries[i].0 == key;
        assert(keys(entries)[i] == key);
    }
    if keys(entries).contains(key) {
        let i = choose|i: int| 0 <= i < keys(entries).len() && keys(entries)[i] == key;
        assert(entries[i].0 == key);
    }
}

/// A key that is there has a first position.
pub proof fn lemma_first_position<V>(entries: Seq<(Seq<char>, V)>, key: Seq<char>)
    requires
        has_key(entries, key),
    ensures
        0 <= position_of(entries, key) < entries.len(),
        entries[position_of(entries, key)].0 == key,
{
    let i = choose|i: int| 0 <= i < entries.len() && #[trigger] entries[i].0 == key;
    lemma_first_below(entries, key, i);
}

pub(crate) proof fn lemma_first_below<V>(entries: Seq<(Seq<char>, V)>, key: Seq<char>, i: int)
    requires
        0 <= i < entries.len(),
        entries[i].0 == key,
    ensures
        exists|j: int|
            0 <= j < entries.len() && #[trigger] entries[j].0 == key && (forall|k: int|
                0 <= k < j ==> #[trigger] entries[k].0 != key),
    decreases i,
{
    if exists|k: int| 0 <= k < i && #[trigger] entries[k].0 == key {
        let k = choose|k: int| 0 <= k < i && #[trigger] entries[k].0 == key;
        lemma_first_below(entries, key, k);
    } else {
        assert(entries[i].0 == key);
    }
}

/// `IndexMap::new` makes a map without entries.
#[verifier::external_body]
fn slots_new() -> (m: IndexMap<String, usize>)
    ensures
        slot_entries(m) == Seq::<(Seq<char>, usize)>::empty(),
{
    IndexMap::new()
}

/// `IndexMap::insert` puts the slot under the key: a key that is there keeps its place in the
/// order, a new one comes last.
#[verifier::external_body]
fn slots_insert(m: &mut IndexMap<String, usize>, key: String, slot: usize)
    ensures
        slot_entries(*final(m)) == with_entry(slot_entries(*old(m)), key@, slot),
{
    m.insert(key, slot);
}

/// `IndexMap::get` gives the slot under the key, or `None` where the key is not there.
#[verifier::external_body]
fn slots_get(m: &IndexMap<String, usize>, key: &str) -> (r: Option<usize>)
    ensures
        r is Some <==> has_key(slot_entries(*m), key@),
        r is Some ==> exists|i: int|
            0 <= i < slot_entries(*m).len() && #[trigger] slot_entries(*m)[i] == (key@, r->0),
{
    m.get(key).copied()
}

/// `IndexMap::get_index` gives the entry at a position, or `None` past the last; here its key.
#[verifier::external_body]
fn slots_key_at(m: &IndexMap<String, usize>, i: usize) -> (r: Option<&String>)
    ensures
        r is Some <==> i < slot_entries(*m).len(),
        r is Some ==> r->0@ == slot_entries(*m)[i as int].0,
{
    m.get_index(i).map(|e| e.0)
}

/// A map from names to values, in the order in which the names were first put in.
///
/// The names are kept in an index that leads to the position of each value.
#[derive(Debug)]
pub struct OrderedMap<V> {
    index: IndexMap<String, usize>,
    values: Vec<V>,
}

impl<V> OrderedMap<V> {
    /// The index leads from each name to the position that the name has in the order, and no
    /// name occurs twice.
    pub closed spec fn well_formed(self) -> bool {
        &&& slot_entries(self.index).len() == self.values@.len()
        &&& forall|i: int|
            0 <= i < self.values@.len() ==> #[trigger] slot_entries(self.index)[i].1 == i
        &&& distinct_keys(slot_entries(self.index))
    }

    #[verifier::type_invariant]
    spec fn holds(self) -> bool {
        self.well_formed()
    }

    /// The pairs of the map, in order.
    pub closed spec fn entries(self) -> Seq<(Seq<char>, V)> {
        Seq::new(self.values@.len(), |i: int| (slot_entries(self.index)[i].0, self.values@[i]))
    }

    /// A map without entries.
    pub fn new() -> (m: Self)
        ensures
            m.entries() == Seq::<(Seq<char>, V)>::empty(),
            m.well_formed(),
    {
        OrderedMap { index: slots_new(), values: Vec::new() }
    }

    /// The number of entries.
    pub fn len(&self) -> (n: usize)
        ensures
            n == self.entries().len(),
            distinct_keys(self.entries()),
    {
        proof {
            use_type_invariant(&*self);
            self.lemma_keys();
        }
        self.values.len()
    }

    /// The name and the value of a map are read by position: the view of the index and the
    /// entries agree on every key.
    proof fn lemma_keys(&self)
        requires
            self.well_formed(),
        ensures
            self.entries().len() == slot_entries(self.index).len(),
            forall|i: int|
                0 <= i < self.entries().len() ==> #[trigger] self.entries()[i].0 == slot_entries(
                    self.index,
                )[i].0,
            distinct_keys(self.entries()),
            forall|k: Seq<char>|
                has_key(self.entries(), k) <==> #[trigger] has_key(slot_entries(self.index), k),
    {
        let s = slot_entries(self.index);
        let e = self.entries();
        assert(forall|i: int| 0 <= i < e.len() ==> #[trigger] e[i].0 == s[i].0);
        assert forall|k: Seq<char>| has_key(e, k) <==> #[trigger] has_key(s, k) by {
            if has_key(e, k) {
                let i = choose|i: int| 0 <= i < e.len() && #[trigger] e[i].0 == k;
                assert(s[i].0 == k);
            }
            if has_key(s, k) {
                let i = choose|i: int| 0 <= i < s.len() && #[trigger] s[i].0 == k;
                assert(e[i].0 == k);
            }
        }
        assert forall|i: int, j: int| 0 <= i < j < e.len() implies #[trigger] e[i].0
            != #[trigger] e[j].0 by {
            assert(s[i].0 != s[j].0);
        }
    }

    /// The position of a name in the order.
    pub fn get_index_of(&self, key: &str) -> (r: Option<usize>)
        ensures
            r is Some <==> has_key(self.entries(), key@),
            r is Some ==> r->0 < self.entries().len() && self.entries()[r->0 as int].0 == key@,
            r is Some ==> r->0 == position_of(self.entries(), key@),
            distinct_keys(self.entries()),
    {
        proof {
            use_type_invariant(&*self);
            self.lemma_keys();
        }
        let r = slots_get(&self.index, key);
        proof {
            if r is Some {
                let s = slot_entries(self.index);
                let i = choose|i: int| 0 <= i < s.len() && #[trigger] s[i] == (key@, r->0);
                assert(s[i].1 == i);
                assert(self.entries()[i].0 == key@);
                lemma_position(self.entries(), i);
            }
        }
        r
    }

    /// Whether a name is in the map.
    pub fn contains_key(&self, key: &str) -> (b: bool)
        ensures
            b == has_key(self.entries(), key@),
    {
        self.get_index_of(key).is_some()
    }

    /// The name at a position.
    pub fn key_at(&self, i: usize) -> (k: &String)
        requires
            i < self.entries().len(),
        ensures
            k@ == self.entries()[i as int].0,
    {
        proof {
            use_type_invariant(&*self);
            self.lemma_keys();
        }
        slots_key_at(&self.index, i).unwrap()
    }

    /// The value at a position.
    pub fn value_at(&self, i: usize) -> (v: &V)
        requires
            i < self.entries().len(),
        ensures
            *v == self.entries()[i as int].1,
    {
        &self.values[i]
    }

    /// The value under a name.
    pub fn get(&self, key: &str) -> (r: Option<&V>)
        ensures
            r is Some <==> has_key(self.entries(), key@),
            r is Some ==> *r->0 == self.entries()[position_of(self.entries(), key@)].1,
    {
        match self.get_index_of(key) {
            Some(i) => Some(&self.values[i]),
            None => None,
        }
    }

    /// Puts `value` under `key`; a name that is there keeps its place.
    pub fn insert(&mut self, key: String, value: V)
        ensures
            final(self).entries() == with_entry(old(self).entries(), key@, value),
            distinct_keys(final(self).entries()),
            final(self).well_formed(),
    {
        let found = self.get_index_of(key.as_str());
        proof {
            use_type_invariant(&*self);
            self.lemma_keys();
        }
        let ghost before = *self;
        let mut whole: OrderedMap<V> = OrderedMap::new();
        core::mem::swap(self, &mut whole);
        let OrderedMap { mut index, mut values } = whole;
        match found {
            Some(i) => {
                values.set(i, value);
            },
            None => {
                let n: usize = values.len();
                slots_insert(&mut index, key, n);
                values.push(value);
            },
        }
        let whole = OrderedMap { index, values };
        proof {
            whole.lemma_keys();
            assert(whole.entries() =~= with_entry(before.entries(), key@, value));
        }
        *self = whole;
    }

    /// The pairs of the map, the last one first.
    pub fn into_reversed(self) -> (r: Vec<(String, V)>)
        ensures
            r@.len() == self.entries().len(),
            distinct_keys(self.entries()),
            forall|i: int|
                0 <= i < r@.len() ==> (#[trigger] r@[i]).0@ == self.entries()[r@.len() - 1 - i].0
                    && r@[i].1 == self.entries()[r@.len() - 1 - i].1,
    {
        proof {
            use_type_invariant(&self);
            self.lemma_keys();
        }
        let ghost all = self.entries();
        let OrderedMap { index, mut values } = self;
        let ghost vals = values@;
        let mut r: Vec<(String, V)> = Vec::new();
        while values.len() > 0
            invariant
                values@.len() + r@.len() == vals.len(),
                all.len() == vals.len(),
                slot_entries(index).len() == vals.len(),
                values@ == vals.take(vals.len() - r@.len()),
                forall|j: int|
                    0 <= j < vals.len() ==> #[trigger] all[j] == (
                        slot_entries(index)[j].0,
                        vals[j],
                    ),
                forall|i: int|
                    0 <= i < r@.len() ==> (#[trigger] r@[i]).0@ == all[vals.len() - 1 - i].0
                        && r@[i].1 == all[vals.len() - 1 - i].1,
            decreases values@.len(),
        {
            let v = values.pop().unwrap();
            let k = slots_key_at(&index, values.len()).unwrap().clone();
            assert(all[values@.len() as int] == (
                slot_entries(index)[values@.len() as int].0,
                vals[values@.len() as int],
            ));
            r.push((k, v));
        }
        r
    }
}

impl<V: Clone> Clone for OrderedMap<V> {
    /// A map with the same names in the same order, and a clone of each value.
    fn clone(&self) -> (r: Self)
        ensures
            r.entries().len() == self.entries().len(),
            forall|i: int|
                0 <= i < r.entries().len() ==> (#[trigger] r.entries()[i]).0
                    == self.entries()[i].0 && cloned(self.entries()[i].1, r.entries()[i].1),
    {
        proof {
            use_type_invariant(&*self);
            self.lemma_keys();
        }
        let mut r: OrderedMap<V> = OrderedMap::new();
        let mut i: usize = 0;
        while i < self.len()
            invariant
                i <= self.entries().len(),
                distinct_keys(self.entries()),
                r.entries().len() == i,
                forall|j: int|
                    0 <= j < i ==> (#[trigger] r.entries()[j]).0 == self.entries()[j].0 && cloned(
                        self.entries()[j].1,
                        r.entries()[j].1,
                    ),
            decreases self.entries().len() - i,
        {
            proof {
                let key = self.entries()[i as int].0;
                if has_key(r.entries(), key) {
                    let j = choose|j: int|
                        0 <= j < r.entries().len() && #[trigger] r.entries()[j].0 == key;
                    assert(self.entries()[j].0 != self.entries()[i as int].0);
                }
            }
            r.insert(self.key_at(i).clone(), self.value_at(i).clone());
            i = i + 1;
        }
        r
    }
}

/// In entries with distinct keys, an entry is the first under its key.
pub proof fn lemma_position<V>(entries: Seq<(Seq<char>, V)>, i: int)
    requires
        distinct_keys(entries),
        0 <= i < entries.len(),
    ensures
        position_of(entries, entries[i].0) == i,
        has_key(entries, entries[i].0),
{
    let key = entries[i].0;
    assert(forall|j: int| 0 <= j < i ==> #[trigger] entries[j].0 != key);
    assert(0 <= i < entries.len() && entries[i].0 == key);
    let p = position_of(entries, key);
    assert(0 <= p < entries.len() && entries[p].0 == key);
    if p < i {
        assert(entries[p].0 != entries[i].0);
    } else if i < p {
        assert(entries[i].0 != entries[p].0);
    }
}

} // verus!
