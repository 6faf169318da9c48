//! Keyed tables: entries in a fixed order, found by key through a hash index.
use dashmap::DashMap;
use vstd::prelude::*;

use crate::search::{first_index, is_first, lemma_first_found, lemma_none_found};

verus! {

/// The sharded hash map that serves as index.
#[verifier::external_type_specification]
#[verifier::external_body]
#[verifier::reject_recursive_types(K)]
#[verifier::reject_recursive_types(V)]
#[verifier::reject_recursive_types(S)]
pub struct ExDashMap<K, V, S>(DashMap<K, V, S>);

/// What an index holds: the position filed under each key.
pub uninterp spec fn index_contents(index: DashMap<String, u64>) -> Map<Seq<char>, u64>;

/// `DashMap::new`: an index that holds nothing.
#[verifier::external_body]
fn index_new() -> (result: DashMap<String, u64>)
    ensures
        index_contents(result).dom() == Set::<Seq<char>>::empty(),
{
    DashMap::new()
}

/// `DashMap::get`: the position filed under `key`, if there is one.
#[verifier::external_body]
fn index_get(index: &DashMap<String, u64>, key: &str) -> (result: Option<u64>)
    ensures
        result == (if index_contents(*index).dom().contains(key@) {
            Some(index_contents(*index)[key@])
        } else {
            None
        }),
{
    index.get(key).map(|found| *found.value())
}

/// `DashMap::insert`: files `position` under `key`, in place of what was there.
#[verifier::external_body]
fn index_insert(index: &mut DashMap<String, u64>, key: String, position: u64)
    ensures
        index_contents(*final(index)) == index_contents(*old(index)).insert(key@, position),
{
    index.insert(key, position);
}

/// `DashMap::remove`: drops what is filed under `key`, if anything is.
#[verifier::external_body]
fn index_remove(index: &mut DashMap<String, u64>, key: &str)
    ensures
        index_contents(*final(index)) == index_contents(*old(index)).remove(key@),
{
    index.remove(key);
}

/// The map that pairs `keys` with `values` position by position.
pub open spec fn paired<V>(keys: Seq<Seq<char>>, values: Seq<V>) -> Map<Seq<char>, V> {
    Map::new(|k: Seq<char>| keys.contains(k), |k: Seq<char>| values[keys.index_of(k)])
}

/// The views of a list of strings.
pub open spec fn texts(list: Seq<String>) -> Seq<Seq<char>> {
    list.map_values(|s: String| s@)
}

/// The entries that `keeps` accepts.
pub open spec fn kept_entries<V>(
    entries: Map<Seq<char>, V>,
    keeps: spec_fn(Seq<char>, V) -> bool,
) -> Map<Seq<char>, V> {
    entries.restrict(Set::new(|k: Seq<char>| keeps(k, entries[k])))
}

/// The values that a list of references points to.
pub open spec fn referents<V>(list: Seq<&V>) -> Seq<V> {
    list.map_values(|v: &V| *v)
}

/// What a sequence contains once an item has been appended.
pub proof fn lemma_push_contains<T>(items: Seq<T>, item: T)
    ensures
        forall|x: T| #[trigger] items.push(item).contains(x) <==> items.contains(x) || x == item,
{
    assert forall|x: T| #[trigger] items.push(item).contains(x) <==> items.contains(x) || x == item by {
        if items.contains(x) {
            let j = items.index_of(x);
            assert(items.push(item)[j] == x);
        }
        if x == item {
            assert(items.push(item)[items.len() as int] == x);
        }
    }
}

/// A table from text to values of type `V`. Entries keep a position, so that a
/// walk over the table has a definite order.
pub struct Table<V> {
    index: DashMap<String, u64>,
    keys: Vec<String>,
    values: Vec<V>,
}

impl<V> View for Table<V> {
    type V = Map<Seq<char>, V>;

    open spec fn view(&self) -> Map<Seq<char>, V> {
        paired(self.keys(), self.values())
    }
}

impl<V> Table<V> {
    /// The keys in walking order.
    pub closed spec fn keys(&self) -> Seq<Seq<char>> {
        texts(self.keys@)
    }

    /// The values in walking order.
    pub closed spec fn values(&self) -> Seq<V> {
        self.values@
    }

    /// Each key stands once, and the index holds its position.
    pub closed spec fn wf(&self) -> bool {
        &&& self.keys@.len() == self.values@.len()
        &&& forall|i: int, j: int|
            0 <= i < j < self.keys@.len() ==> #[trigger] self.keys@[i]@ != #[trigger] self.keys@[j]@
        &&& forall|i: int|
            0 <= i < self.keys@.len() ==> {
                &&& index_contents(self.index).dom().contains(#[trigger] self.keys@[i]@)
                &&& index_contents(self.index)[self.keys@[i]@] == i
            }
        &&& forall|k: Seq<char>| #[trigger]
            index_contents(self.index).dom().contains(k) ==> {
                &&& 0 <= index_contents(self.index)[k] < self.keys@.len()
                &&& self.keys@[index_contents(self.index)[k] as int]@ == k
            }
    }

    /// What a well-formed table says of its keys, its values and its map.
    pub proof fn lemma_wf(&self)
        requires
            self.wf(),
        ensures
            self.keys().len() == self.values().len(),
            self.keys().no_duplicates(),
            forall|i: int|
                0 <= i < self.keys().len() ==> {
                    &&& #[trigger] self@.dom().contains(self.keys()[i])
                    &&& self@[self.keys()[i]] == self.values()[i]
                    &&& self.keys().index_of(self.keys()[i]) == i
                },
            forall|k: Seq<char>| #[trigger]
                self@.dom().contains(k) ==> {
                    &&& 0 <= self.keys().index_of(k) < self.keys().len()
                    &&& self.keys()[self.keys().index_of(k)] == k
                    &&& self@[k] == self.values()[self.keys().index_of(k)]
                },
            self@.dom().finite(),
            self@.dom().len() == self.keys().len(),
    {
        let keys = self.keys();
        assert(keys.no_duplicates());
        assert forall|i: int| 0 <= i < keys.len() implies {
            &&& #[trigger] self@.dom().contains(keys[i])
            &&& self@[keys[i]] == self.values()[i]
            &&& keys.index_of(keys[i]) == i
        } by {
            assert(keys.contains(keys[i]));
        }
        keys.unique_seq_to_set();
        assert(self@.dom() =~= keys.to_set());
    }

    /// An empty table.
    pub fn new() -> (result: Self)
        ensures
            result.wf(),
            result.keys() == Seq::<Seq<char>>::empty(),
            result.values() == Seq::<V>::empty(),
            result@ == Map::<Seq<char>, V>::empty(),
    {
        let result = Table { index: index_new(), keys: Vec::new(), values: Vec::new() };
        assert(result.keys() =~= Seq::<Seq<char>>::empty());
        assert(result@ =~= Map::<Seq<char>, V>::empty());
        result
    }

    /// The number of entries.
    pub fn len(&self) -> (result: usize)
        requires
            self.wf(),
        ensures
            result == self.keys().len(),
            result == self.values().len(),
            result == self@.dom().len(),
    {
        proof {
            self.lemma_wf();
        }
        self.keys.len()
    }

    /// The position of `key` in walking order.
    pub fn find(&self, key: &str) -> (result: Option<usize>)
        requires
            self.wf(),
        ensures
            match result {
                Some(i) => {
                    &&& i < self.keys().len()
                    &&& i < self.values().len()
                    &&& self.keys()[i as int] == key@
                    &&& self.keys().index_of(key@) == i
                    &&& self@.dom().contains(key@)
                    &&& self@[key@] == self.values()[i as int]
                },
                None => !self@.dom().contains(key@),
            },
    {
        proof {
            self.lemma_wf();
        }
        match index_get(&self.index, key) {
            Some(position) => {
                assert(self.keys()[position as int] == key@);
                assert(position < self.keys.len());
                Some(position as usize)
            },
            None => {
                assert forall|i: int| 0 <= i < self.keys().len() implies self.keys()[i] != key@ by {
                    assert(self.keys()[i] == self.keys@[i]@);
                }
                None
            },
        }
    }

    /// Whether `key` has an entry.
    pub fn contains_key(&self, key: &str) -> (result: bool)
        requires
            self.wf(),
        ensures
            result == self@.dom().contains(key@),
    {
        self.find(key).is_some()
    }

    /// The value filed under `key`.
    pub fn get(&self, key: &str) -> (result: Option<&V>)
        requires
            self.wf(),
        ensures
            match result {
                Some(value) => self@.dom().contains(key@) && *value == self@[key@],
                None => !self@.dom().contains(key@),
            },
    {
        match self.find(key) {
            Some(i) => Some(&self.values[i]),
            None => None,
        }
    }

    /// The key at position `i`.
    pub fn key_at(&self, i: usize) -> (result: &String)
        requires
            self.wf(),
            i < self.keys().len(),
        ensures
            result@ == self.keys()[i as int],
    {
        &self.keys[i]
    }

    /// The value at position `i`.
    pub fn value_at(&self, i: usize) -> (result: &V)
        requires
            self.wf(),
            i < self.values().len(),
        ensures
            *result == self.values()[i as int],
    {
        &self.values[i]
    }

    /// The value at position `i`, for writing.
    pub fn value_at_mut(&mut self, i: usize) -> (result: &mut V)
        requires
            old(self).wf(),
            i < old(self).values().len(),
        ensures
            *result == old(self).values()[i as int],
            final(self).wf(),
            final(self).keys() == old(self).keys(),
            final(self).values() == old(self).values().update(i as int, *final(result)),
            final(self)@ == old(self)@.insert(old(self).keys()[i as int], *final(result)),
    {
        &mut self.values[i]
    }

    /// Files `value` under `key`, and gives back what was filed there. A new key
    /// goes to the end of the walking order.
    pub fn insert(&mut self, key: String, value: V) -> (result: Option<V>)
        requires
            old(self).wf(),
        ensures
            final(self).wf(),
            final(self)@ == old(self)@.insert(key@, value),
            result == (if old(self)@.dom().contains(key@) {
                Some(old(self)@[key@])
            } else {
                None
            }),
            final(self).keys() == (if old(self)@.dom().contains(key@) {
                old(self).keys()
            } else {
                old(self).keys().push(key@)
            }),
            final(self).values() == (if old(self)@.dom().contains(key@) {
                old(self).values().update(old(self).keys().index_of(key@), value)
            } else {
                old(self).values().push(value)
            }),
    {
        proof {
            self.lemma_wf();
        }
        match self.find(key.as_str()) {
            Some(i) => {
                let mut incoming = value;
                std::mem::swap(&mut self.values[i], &mut incoming);
                proof {
                    self.lemma_wf();
                    assert(self.keys() == old(self).keys());
                    assert(self@ =~= old(self)@.insert(key@, value));
                }
                Some(incoming)
            },
            None => {
                let position: u64 = self.keys.len() as u64;
                index_insert(&mut self.index, key.clone(), position);
                self.keys.push(key);
                self.values.push(value);
                proof {
                    assert(self.keys() =~= old(self).keys().push(key@));
                    assert forall|i: int| 0 <= i < old(self).keys@.len() implies #[trigger] self.keys@[i]@ != key@ by {
                        assert(old(self)@.dom().contains(old(self).keys()[i]));
                        assert(self.keys@[i] == old(self).keys@[i]);
                    }
                    assert(self.wf());
                    self.lemma_wf();
                    assert(self.values() =~= old(self).values().push(value));
                    assert forall|k: Seq<char>| self.keys().contains(k) implies
                        old(self).keys().contains(k) || k == key@ by {}
                    assert forall|k: Seq<char>| old(self).keys().contains(k) || k == key@ implies
                        #[trigger] self.keys().contains(k) by {
                        if k == key@ {
                            assert(self.keys()[old(self).keys().len() as int] == k);
                        } else {
                            let i = old(self).keys().index_of(k);
                            assert(self.keys()[i] == k);
                        }
                    }
                    assert forall|k: Seq<char>| #[trigger] self@.dom().contains(k) implies self@[k] == old(
                        self,
                    )@.insert(key@, value)[k] by {
                        if k == key@ {
                            let last = old(self).keys().len() as int;
                            assert(self.keys()[last] == k);
                            assert(self@.dom().contains(self.keys()[last]));
                        } else {
                            let i = old(self).keys().index_of(k);
                            assert(old(self)@.dom().contains(k));
                            assert(self.keys()[i] == k);
                            assert(self@.dom().contains(self.keys()[i]));
                        }
                    }
                    assert(self@ =~= old(self)@.insert(key@, value));
                }
                None
            },
        }
    }

    /// Drops the entry of `key` and gives back its value. The last entry takes
    /// the place that comes free.
    pub fn remove(&mut self, key: &str) -> (result: Option<V>)
        requires
            old(self).wf(),
        ensures
            final(self).wf(),
            final(self)@ == old(self)@.remove(key@),
            result == (if old(self)@.dom().contains(key@) {
                Some(old(self)@[key@])
            } else {
                None
            }),
    {
        proof {
            self.lemma_wf();
        }
        match self.find(key) {
            Some(i) => {
                let last: usize = self.keys.len() - 1;
                let gone: String = self.keys.swap_remove(i);
                let value = self.values.swap_remove(i);
                index_remove(&mut self.index, gone.as_str());
                if i < last {
                    let moved: String = self.keys[i].clone();
                    index_insert(&mut self.index, moved, i as u64);
                }
                proof {
                    let before = old(self).keys@;
                    let after = self.keys@;
                    assert(forall|j: int| 0 <= j < after.len() ==> after[j] == (if j == i {
                        before[last as int]
                    } else {
                        before[j]
                    }));
                    assert(forall|j: int| 0 <= j < after.len() ==> #[trigger] after[j]@ != key@);
                    assert(self.wf());
                    self.lemma_wf();
                    assert forall|k: Seq<char>| self@.dom().contains(k) <==> old(self)@.remove(
                        key@,
                    ).dom().contains(k) by {
                        if self@.dom().contains(k) {
                            let j = self.keys().index_of(k);
                            assert(self.keys()[j] == k);
                            let was = if j == i { last as int } else { j };
                            assert(old(self).keys()[was] == k);
                            assert(old(self)@.dom().contains(old(self).keys()[was]));
                            assert(after[j]@ != key@);
                        }
                        if old(self)@.dom().contains(k) && k != key@ {
                            let j = old(self).keys().index_of(k);
                            let now = if j == last { i as int } else { j };
                            assert(self.keys()[now] == k);
                            assert(self@.dom().contains(self.keys()[now]));
                        }
                    }
                    assert forall|k: Seq<char>| #[trigger] self@.dom().contains(k) implies self@[k] == old(
                        self,
                    )@.remove(key@)[k] by {
                        let j = self.keys().index_of(k);
                        let was = if j == i { last as int } else { j };
                        assert(old(self).keys()[was] == k);
                        assert(old(self)@.dom().contains(old(self).keys()[was]));
                    }
                    assert(self@ =~= old(self)@.remove(key@));
                }
                Some(value)
            },
            None => {
                assert(self@ =~= old(self)@.remove(key@));
                None
            },
        }
    }

    /// Drops the entries of all the keys in `doomed`.
    pub fn remove_all(&mut self, doomed: &Vec<String>)
        requires
            old(self).wf(),
        ensures
            final(self).wf(),
            final(self)@ == old(self)@.remove_keys(texts(doomed@).to_set()),
    {
        let mut i: usize = 0;
        assert(texts(doomed@.take(0)).to_set() =~= Set::<Seq<char>>::empty());
        assert(self@ =~= old(self)@.remove_keys(texts(doomed@.take(0)).to_set()));
        while i < doomed.len()
            invariant
                i <= doomed.len(),
                self.wf(),
                self@ == old(self)@.remove_keys(texts(doomed@.take(i as int)).to_set()),
            decreases doomed.len() - i,
        {
            let _ = self.remove(doomed[i].as_str());
            proof {
                let before = texts(doomed@.take(i as int));
                let after = texts(doomed@.take(i + 1));
                assert(after =~= before.push(doomed@[i as int]@));
                assert forall|k: Seq<char>| after.contains(k) <==> before.contains(k) || k == doomed@[i as int]@ by {
                    if before.contains(k) {
                        let j = before.index_of(k);
                        assert(after[j] == k);
                    }
                    if k == doomed@[i as int]@ {
                        assert(after[i as int] == k);
                    }
                }
                assert(self@ =~= old(self)@.remove_keys(after.to_set()));
            }
            i += 1;
        }
        assert(doomed@.take(i as int) =~= doomed@);
    }

    /// Drops the entries that `keep` refuses; `keeps` says which ones it accepts.
    pub(crate) fn retain<F: Fn(&String, &V) -> bool>(
        &mut self,
        keep: F,
        Ghost(keeps): Ghost<spec_fn(Seq<char>, V) -> bool>,
    )
        requires
            old(self).wf(),
            forall|k: &String, v: &V| #[trigger] keep.requires((k, v)),
            forall|k: &String, v: &V, kept: bool| #[trigger]
                keep.ensures((k, v), kept) ==> kept == keeps(k@, *v),
        ensures
            final(self).wf(),
            final(self)@ == kept_entries(old(self)@, keeps),
    {
        let mut doomed: Vec<String> = Vec::new();
        let mut i: usize = 0;
        while i < self.keys.len()
            invariant
                self.wf(),
                i <= self.keys().len(),
                self.keys@.len() == self.keys().len(),
                *self == *old(self),
                forall|k: &String, v: &V| #[trigger] keep.requires((k, v)),
                forall|k: &String, v: &V, kept: bool| #[trigger]
                    keep.ensures((k, v), kept) ==> kept == keeps(k@, *v),
                forall|k: Seq<char>| #[trigger]
                    texts(doomed@).contains(k) <==> self@.dom().contains(k) && self.keys().index_of(k)
                        < i && !keeps(k, self@[k]),
            decreases self.keys@.len() - i,
        {
            proof {
                self.lemma_wf();
                let key = self.keys()[i as int];
                assert(self@.dom().contains(key));
            }
            let ghost before = texts(doomed@);
            if !keep(&self.keys[i], &self.values[i]) {
                doomed.push(self.keys[i].clone());
                proof {
                    let key = self.keys()[i as int];
                    assert(texts(doomed@) =~= before.push(key));
                    lemma_push_contains(before, key);
                }
            }
            i += 1;
        }
        self.remove_all(&doomed);
        proof {
            old(self).lemma_wf();
            assert(self@ =~= kept_entries(old(self)@, keeps));
        }
    }

    /// The first position whose value `test` accepts; `wanted` says which ones it
    /// accepts.
    pub(crate) fn first_where<F: Fn(&V) -> bool>(
        &self,
        test: F,
        Ghost(wanted): Ghost<spec_fn(V) -> bool>,
    ) -> (result: Option<usize>)
        requires
            self.wf(),
            forall|v: &V| #[trigger] test.requires((v,)),
            forall|v: &V, yes: bool| #[trigger] test.ensures((v,), yes) ==> yes == wanted(*v),
        ensures
            match (result, first_index(self.values(), wanted)) {
                (Some(i), Some(k)) => i == k && i < self.values().len() && i < self.keys().len()
                    && is_first(self.values(), wanted, k),
                (None, None) => true,
                _ => false,
            },
    {
        let mut i: usize = 0;
        while i < self.values.len()
            invariant
                self.wf(),
                i <= self.values().len(),
                self.values@ == self.values(),
                self.keys@.len() == self.keys().len(),
                forall|v: &V| #[trigger] test.requires((v,)),
                forall|v: &V, yes: bool| #[trigger] test.ensures((v,), yes) ==> yes == wanted(*v),
                forall|j: int| 0 <= j < i ==> !wanted(#[trigger] self.values()[j]),
            decreases self.values@.len() - i,
        {
            if test(&self.values[i]) {
                proof {
                    lemma_first_found(self.values(), wanted, i as int);
                }
                return Some(i);
            }
            i += 1;
        }
        proof {
            lemma_none_found(self.values(), wanted);
        }
        None
    }

    /// The values that `test` accepts, in walking order; `wanted` says which ones it
    /// accepts.
    pub(crate) fn values_where<F: Fn(&V) -> bool>(
        &self,
        test: F,
        Ghost(wanted): Ghost<spec_fn(V) -> bool>,
    ) -> (result: Vec<&V>)
        requires
            self.wf(),
            forall|v: &V| #[trigger] test.requires((v,)),
            forall|v: &V, yes: bool| #[trigger] test.ensures((v,), yes) ==> yes == wanted(*v),
        ensures
            referents(result@) == self.values().filter(wanted),
    {
        let mut out: Vec<&V> = Vec::new();
        let mut i: usize = 0;
        proof {
            reveal(Seq::filter);
            assert(self.values().take(0) =~= Seq::<V>::empty());
            assert(referents(out@) =~= Seq::<V>::empty());
        }
        while i < self.values.len()
            invariant
                self.wf(),
                i <= self.values().len(),
                self.values@ == self.values(),
                forall|v: &V| #[trigger] test.requires((v,)),
                forall|v: &V, yes: bool| #[trigger] test.ensures((v,), yes) ==> yes == wanted(*v),
                referents(out@) == self.values().take(i as int).filter(wanted),
            decreases self.values@.len() - i,
        {
            proof {
                reveal(Seq::filter);
                assert(self.values().take(i + 1).drop_last() =~= self.values().take(i as int));
            }
            let ghost before = out@;
            if test(&self.values[i]) {
                out.push(&self.values[i]);
                assert(referents(out@) =~= referents(before).push(self.values()[i as int]));
            }
            i += 1;
        }
        assert(self.values().take(i as int) =~= self.values());
        out
    }

    /// Copies of the keys in walking order.
    pub fn key_list(&self) -> (result: Vec<String>)
        requires
            self.wf(),
        ensures
            texts(result@) == self.keys(),
    {
        crate::types::copy_texts(&self.keys)
    }

    /// Drops every entry.
    pub fn clear(&mut self)
        ensures
            final(self).wf(),
            final(self).keys() == Seq::<Seq<char>>::empty(),
            final(self).values() == Seq::<V>::empty(),
            final(self)@ == Map::<Seq<char>, V>::empty(),
    {
        *self = Table::new();
    }
}

/// Keeping some entries of a table keeps those as they are and no other.
pub proof fn lemma_kept_entries_stay_as_they_are<V>(
    entries: Map<Seq<char>, V>,
    keeps: spec_fn(Seq<char>, V) -> bool,
    key: Seq<char>,
)
    ensures
        kept_entries(entries, keeps).dom().contains(key) <==> entries.dom().contains(key) && keeps(
            key,
            entries[key],
        ),
        kept_entries(entries, keeps).dom().contains(key) ==> kept_entries(entries, keeps)[key]
            == entries[key],
{
}

/// A table pairs each key with the value that stands beside it.
pub proof fn lemma_keys_stand_beside_their_values<V>(
    keys: Seq<Seq<char>>,
    values: Seq<V>,
    i: int,
)
    requires
        keys.no_duplicates(),
        keys.len() == values.len(),
        0 <= i < keys.len(),
    ensures
        paired(keys, values).dom().contains(keys[i]),
        paired(keys, values)[keys[i]] == values[i],
        forall|k: Seq<char>| #[trigger]
            paired(keys, values).dom().contains(k) ==> keys.contains(k),
{
    assert(keys.contains(keys[i]));
    assert(keys.index_of(keys[i]) == i);
}

} // verus!
