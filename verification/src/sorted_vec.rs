use vstd::prelude::*;

use crate::str_key::{compare_keys, key_lt, lemma_key_lt_irreflexive, lemma_key_lt_transitive, KeyOrder};

verus! {

/// An item that is found again by a string key.
pub trait EntityWithStrKey {
    /// The key of the item.
    spec fn key(&self) -> Seq<char>;

    /// The key of the item.
    fn get_key(&self) -> (r: &str)
        ensures
            r@ == self.key(),
    ;
}

/// The keys of `s` ascend strictly: no key occurs twice.
pub open spec fn keys_ascending<T: EntityWithStrKey>(s: Seq<T>) -> bool {
    forall|i: int, j: int| 0 <= i < j < s.len() ==> key_lt(#[trigger] s[i].key(), #[trigger] s[j].key())
}

/// Some item of `s` has key `k`.
pub open spec fn seq_has_key<T: EntityWithStrKey>(s: Seq<T>, k: Seq<char>) -> bool {
    exists|i: int| 0 <= i < s.len() && #[trigger] s[i].key() == k
}

/// The position of the item of `s` with key `k` (meaningful when there is one).
pub open spec fn seq_index_of<T: EntityWithStrKey>(s: Seq<T>, k: Seq<char>) -> int {
    choose|i: int| 0 <= i < s.len() && #[trigger] s[i].key() == k
}

/// The items of `s` by their keys.
pub open spec fn seq_to_map<T: EntityWithStrKey>(s: Seq<T>) -> Map<Seq<char>, T> {
    Map::new(|k: Seq<char>| seq_has_key(s, k), |k: Seq<char>| s[seq_index_of(s, k)])
}

/// `k` may be inserted at position `i` of `s` and keep the keys ascending.
pub open spec fn insertion_point<T: EntityWithStrKey>(s: Seq<T>, k: Seq<char>, i: int) -> bool {
    &&& 0 <= i <= s.len()
    &&& forall|j: int| 0 <= j < i ==> key_lt(#[trigger] s[j].key(), k)
    &&& forall|j: int| i <= j < s.len() ==> key_lt(k, #[trigger] s[j].key())
}

/// In a sequence with ascending keys, a key sits at one position only.
pub proof fn lemma_unique_position<T: EntityWithStrKey>(s: Seq<T>, i: int, j: int)
    requires
        keys_ascending(s),
        0 <= i < s.len(),
        0 <= j < s.len(),
        s[i].key() == s[j].key(),
    ensures
        i == j,
{
    lemma_key_lt_irreflexive(s[i].key());
    if i < j {
        assert(key_lt(s[i].key(), s[j].key()));
    } else if j < i {
        assert(key_lt(s[j].key(), s[i].key()));
    }
}

/// In a sequence with ascending keys, the item at `i` is what the map view holds for its key.
pub proof fn lemma_map_at<T: EntityWithStrKey>(s: Seq<T>, i: int)
    requires
        keys_ascending(s),
        0 <= i < s.len(),
    ensures
        seq_has_key(s, s[i].key()),
        seq_index_of(s, s[i].key()) == i,
        seq_to_map(s).contains_key(s[i].key()),
        seq_to_map(s)[s[i].key()] == s[i],
{
    let k = s[i].key();
    assert(seq_has_key(s, k));
    let j = seq_index_of(s, k);
    lemma_unique_position(s, i, j);
}

/// At an insertion point the key is absent.
pub proof fn lemma_insertion_point_absent<T: EntityWithStrKey>(s: Seq<T>, k: Seq<char>, i: int)
    requires
        insertion_point(s, k, i),
    ensures
        !seq_has_key(s, k),
{
    lemma_key_lt_irreflexive(k);
    if seq_has_key(s, k) {
        let j = choose|j: int| 0 <= j < s.len() && #[trigger] s[j].key() == k;
        if j < i {
            assert(key_lt(s[j].key(), k));
        } else {
            assert(key_lt(k, s[j].key()));
        }
    }
}

/// Replacing the item at `i` by one with the same key replaces the map entry.
pub proof fn lemma_map_update<T: EntityWithStrKey>(s: Seq<T>, i: int, item: T)
    requires
        keys_ascending(s),
        0 <= i < s.len(),
        item.key() == s[i].key(),
    ensures
        keys_ascending(s.update(i, item)),
        seq_to_map(s.update(i, item)) == seq_to_map(s).insert(item.key(), item),
{
    let t = s.update(i, item);
    assert(keys_ascending(t)) by {
        assert forall|a: int, b: int| 0 <= a < b < t.len() implies key_lt(
            #[trigger] t[a].key(),
            #[trigger] t[b].key(),
        ) by {
            assert(key_lt(s[a].key(), s[b].key()));
        }
    }
    let m1 = seq_to_map(t);
    let m2 = seq_to_map(s).insert(item.key(), item);
    assert forall|k: Seq<char>| m1.contains_key(k) <==> m2.contains_key(k) by {
        if seq_has_key(t, k) {
            let j = choose|j: int| 0 <= j < t.len() && #[trigger] t[j].key() == k;
            if j != i {
                assert(s[j].key() == k);
            }
        }
        if seq_has_key(s, k) {
            let j = choose|j: int| 0 <= j < s.len() && #[trigger] s[j].key() == k;
            if j != i {
                assert(t[j].key() == k);
            }
        }
        if k == item.key() {
            assert(t[i].key() == k);
        }
    }
    assert forall|k: Seq<char>| m1.contains_key(k) implies m1[k] == m2[k] by {
        let j = choose|j: int| 0 <= j < t.len() && #[trigger] t[j].key() == k;
        lemma_map_at(t, j);
        if j != i {
            assert(s[j].key() == k);
            lemma_map_at(s, j);
        }
    }
    assert(m1 =~= m2);
}

/// Inserting at an insertion point adds the map entry.
pub proof fn lemma_map_insert<T: EntityWithStrKey>(s: Seq<T>, i: int, item: T)
    requires
        keys_ascending(s),
        insertion_point(s, item.key(), i),
    ensures
        keys_ascending(s.insert(i, item)),
        seq_to_map(s.insert(i, item)) == seq_to_map(s).insert(item.key(), item),
{
    let t = s.insert(i, item);
    assert(keys_ascending(t)) by {
        assert forall|a: int, b: int| 0 <= a < b < t.len() implies key_lt(
            #[trigger] t[a].key(),
            #[trigger] t[b].key(),
        ) by {
            if b < i {
                assert(key_lt(s[a].key(), s[b].key()));
            } else if b == i {
                assert(key_lt(s[a].key(), item.key()));
            } else if a < i {
                assert(key_lt(s[a].key(), s[b - 1].key()));
            } else if a == i {
                assert(key_lt(item.key(), s[b - 1].key()));
            } else {
                assert(key_lt(s[a - 1].key(), s[b - 1].key()));
            }
        }
    }
    let m1 = seq_to_map(t);
    let m2 = seq_to_map(s).insert(item.key(), item);
    assert forall|k: Seq<char>| m1.contains_key(k) <==> m2.contains_key(k) by {
        if seq_has_key(t, k) {
            let j = choose|j: int| 0 <= j < t.len() && #[trigger] t[j].key() == k;
            if j < i {
                assert(s[j].key() == k);
            } else if j > i {
                assert(s[j - 1].key() == k);
            }
        }
        if seq_has_key(s, k) {
            let j = choose|j: int| 0 <= j < s.len() && #[trigger] s[j].key() == k;
            if j < i {
                assert(t[j].key() == k);
            } else {
                assert(t[j + 1].key() == k);
            }
        }
        if k == item.key() {
            assert(t[i].key() == k);
        }
    }
    assert forall|k: Seq<char>| m1.contains_key(k) implies m1[k] == m2[k] by {
        let j = choose|j: int| 0 <= j < t.len() && #[trigger] t[j].key() == k;
        lemma_map_at(t, j);
        if j < i {
            assert(s[j].key() == k);
            lemma_map_at(s, j);
        } else if j > i {
            assert(s[j - 1].key() == k);
            lemma_map_at(s, j - 1);
        }
    }
    assert(m1 =~= m2);
}

/// Removing the item at `i` removes its map entry.
pub proof fn lemma_map_remove<T: EntityWithStrKey>(s: Seq<T>, i: int)
    requires
        keys_ascending(s),
        0 <= i < s.len(),
    ensures
        keys_ascending(s.remove(i)),
        seq_to_map(s.remove(i)) == seq_to_map(s).remove(s[i].key()),
{
    let t = s.remove(i);
    let key = s[i].key();
    assert(keys_ascending(t)) by {
        assert forall|a: int, b: int| 0 <= a < b < t.len() implies key_lt(
            #[trigger] t[a].key(),
            #[trigger] t[b].key(),
        ) by {
            if b < i {
                assert(key_lt(s[a].key(), s[b].key()));
            } else if a < i {
                assert(key_lt(s[a].key(), s[b + 1].key()));
            } else {
                assert(key_lt(s[a + 1].key(), s[b + 1].key()));
            }
        }
    }
    let m1 = seq_to_map(t);
    let m2 = seq_to_map(s).remove(key);
    assert forall|k: Seq<char>| m1.contains_key(k) <==> m2.contains_key(k) by {
        if seq_has_key(t, k) {
            let j = choose|j: int| 0 <= j < t.len() && #[trigger] t[j].key() == k;
            if j < i {
                assert(s[j].key() == k);
                if k == key {
                    lemma_unique_position(s, i, j);
                }
            } else {
                assert(s[j + 1].key() == k);
                if k == key {
                    lemma_unique_position(s, i, j + 1);
                }
            }
        }
        if seq_has_key(s, k) && k != key {
            let j = choose|j: int| 0 <= j < s.len() && #[trigger] s[j].key() == k;
            if j < i {
                assert(t[j].key() == k);
            } else {
                assert(j != i);
                assert(t[j - 1].key() == k);
            }
        }
    }
    assert forall|k: Seq<char>| m1.contains_key(k) implies m1[k] == m2[k] by {
        let j = choose|j: int| 0 <= j < t.len() && #[trigger] t[j].key() == k;
        lemma_map_at(t, j);
        if j < i {
            lemma_map_at(s, j);
        } else {
            lemma_map_at(s, j + 1);
        }
    }
    assert(m1 =~= m2);
}

/// The keys of `s`, in order.
pub open spec fn seq_keys<T: EntityWithStrKey>(s: Seq<T>) -> Seq<Seq<char>> {
    Seq::new(s.len(), |i: int| s[i].key())
}

/// A sequence with ascending keys has as many map entries as items.
pub proof fn lemma_map_len<T: EntityWithStrKey>(s: Seq<T>)
    requires
        keys_ascending(s),
    ensures
        seq_to_map(s).dom().finite(),
        seq_to_map(s).len() == s.len(),
        seq_to_map(s).dom() == seq_keys(s).to_set(),
{
    let keys = seq_keys(s);
    assert(keys.no_duplicates()) by {
        assert forall|i: int, j: int| 0 <= i < keys.len() && 0 <= j < keys.len() && i != j implies keys[i]
            != keys[j] by {
            if keys[i] == keys[j] {
                lemma_unique_position(s, i, j);
            }
        }
    }
    assert forall|k: Seq<char>| seq_to_map(s).dom().contains(k) <==> keys.to_set().contains(k) by {
        if seq_has_key(s, k) {
            let j = choose|j: int| 0 <= j < s.len() && #[trigger] s[j].key() == k;
            assert(keys[j] == k);
        }
        if keys.to_set().contains(k) {
            let j = choose|j: int| 0 <= j < keys.len() && keys[j] == k;
            assert(s[j].key() == k);
        }
    }
    assert(seq_to_map(s).dom() =~= keys.to_set());
    keys.unique_seq_to_set();
    vstd::seq_lib::seq_to_set_is_finite(keys);
}

/// A vector of items kept in ascending order of their string keys, each key
/// at most once.
pub struct SortedVecWithStrKey<T: EntityWithStrKey> {
    items: Vec<T>,
}

impl<T: EntityWithStrKey> View for SortedVecWithStrKey<T> {
    type V = Seq<T>;

    closed spec fn view(&self) -> Seq<T> {
        self.items@
    }
}

impl<T: EntityWithStrKey> SortedVecWithStrKey<T> {
    /// The keys ascend.
    pub open spec fn wf(&self) -> bool {
        keys_ascending(self@)
    }

    /// The items by their keys.
    pub open spec fn to_map(&self) -> Map<Seq<char>, T> {
        seq_to_map(self@)
    }

    /// The item with key `k`, if any.
    pub open spec fn get_spec(&self, k: Seq<char>) -> Option<T> {
        if self.to_map().contains_key(k) {
            Some(self.to_map()[k])
        } else {
            None
        }
    }

    pub fn new() -> (r: Self)
        ensures
            r.wf(),
            r@ == Seq::<T>::empty(),
    {
        Self { items: Vec::new() }
    }

    pub fn len(&self) -> (r: usize)
        ensures
            r == self@.len(),
    {
        self.items.len()
    }

    /// The item at position `i`.
    pub fn get_at(&self, i: usize) -> (r: &T)
        requires
            i < self@.len(),
        ensures
            *r == self@[i as int],
    {
        &self.items[i]
    }

    /// Binary search for `key`: `Ok` with its position, or `Err` with the
    /// position where it would be inserted.
    pub fn find(&self, key: &str) -> (r: Result<usize, usize>)
        requires
            self.wf(),
        ensures
            match r {
                Ok(i) => i < self@.len() && self@[i as int].key() == key@,
                Err(i) => insertion_point(self@, key@, i as int) && !seq_has_key(self@, key@),
            },
    {
        let mut lo: usize = 0;
        let mut hi: usize = self.items.len();
        while lo < hi
            invariant
                lo <= hi <= self@.len(),
                self.wf(),
                forall|j: int| 0 <= j < lo ==> key_lt(#[trigger] self@[j].key(), key@),
                forall|j: int| hi <= j < self@.len() ==> key_lt(key@, #[trigger] self@[j].key()),
            decreases hi - lo,
        {
            let mid = lo + (hi - lo) / 2;
            let item_key = self.items[mid].get_key();
            match compare_keys(item_key, key) {
                KeyOrder::Equal => {
                    return Ok(mid);
                },
                KeyOrder::Less => {
                    assert forall|j: int| 0 <= j < mid + 1 implies key_lt(
                        #[trigger] self@[j].key(),
                        key@,
                    ) by {
                        if j < mid {
                            assert(key_lt(self@[j].key(), self@[mid as int].key()));
                            lemma_key_lt_transitive(
                                self@[j].key(),
                                self@[mid as int].key(),
                                key@,
                            );
                        }
                    }
                    lo = mid + 1;
                },
                KeyOrder::Greater => {
                    assert forall|j: int| mid <= j < self@.len() implies key_lt(
                        key@,
                        #[trigger] self@[j].key(),
                    ) by {
                        if j > mid {
                            assert(key_lt(self@[mid as int].key(), self@[j].key()));
                            lemma_key_lt_transitive(
                                key@,
                                self@[mid as int].key(),
                                self@[j].key(),
                            );
                        }
                    }
                    hi = mid;
                },
            }
        }
        proof {
            lemma_insertion_point_absent(self@, key@, lo as int);
        }
        Err(lo)
    }

    /// The item with key `key`, if any.
    pub fn get(&self, key: &str) -> (r: Option<&T>)
        requires
            self.wf(),
        ensures
            match r {
                Some(t) => self.get_spec(key@) == Some(*t),
                None => self.get_spec(key@) is None,
            },
    {
        match self.find(key) {
            Ok(i) => {
                proof {
                    lemma_map_at(self@, i as int);
                }
                Some(&self.items[i])
            },
            Err(_) => None,
        }
    }

    /// Whether an item with key `key` is present.
    pub fn contains_key(&self, key: &str) -> (r: bool)
        requires
            self.wf(),
        ensures
            r == self.to_map().contains_key(key@),
    {
        match self.find(key) {
            Ok(i) => {
                proof {
                    lemma_map_at(self@, i as int);
                }
                true
            },
            Err(_) => false,
        }
    }

    /// Puts `item` at position `i`, which must be where its key belongs.
    pub fn insert_at(&mut self, i: usize, item: T)
        requires
            old(self).wf(),
            insertion_point(old(self)@, item.key(), i as int),
        ensures
            final(self).wf(),
            final(self)@ == old(self)@.insert(i as int, item),
            final(self).to_map() == old(self).to_map().insert(item.key(), item),
    {
        proof {
            lemma_map_insert(self@, i as int, item);
        }
        self.items.insert(i, item);
    }

    /// Replaces the item at position `i` by one with the same key; returns the old item.
    pub fn replace_at(&mut self, i: usize, item: T) -> (r: T)
        requires
            old(self).wf(),
            i < old(self)@.len(),
            item.key() == old(self)@[i as int].key(),
        ensures
            final(self).wf(),
            r == old(self)@[i as int],
            final(self)@ == old(self)@.update(i as int, item),
            final(self).to_map() == old(self).to_map().insert(item.key(), item),
    {
        proof {
            lemma_map_update(self@, i as int, item);
        }
        let mut item = item;
        std::mem::swap(&mut self.items[i], &mut item);
        item
    }

    /// Removes the item at position `i` and returns it.
    pub fn remove_at(&mut self, i: usize) -> (r: T)
        requires
            old(self).wf(),
            i < old(self)@.len(),
        ensures
            final(self).wf(),
            r == old(self)@[i as int],
            final(self)@ == old(self)@.remove(i as int),
            final(self).to_map() == old(self).to_map().remove(r.key()),
    {
        proof {
            lemma_map_remove(self@, i as int);
        }
        self.items.remove(i)
    }

    /// Puts `item` in place of the item with the same key, or where its key
    /// belongs; returns the item it replaced, if any.
    pub fn insert_or_replace(&mut self, item: T) -> (r: Option<T>)
        requires
            old(self).wf(),
        ensures
            final(self).wf(),
            r == old(self).get_spec(item.key()),
            final(self).to_map() == old(self).to_map().insert(item.key(), item),
    {
        let found = self.find(item.get_key());
        match found {
            Ok(i) => {
                proof {
                    lemma_map_at(self@, i as int);
                }
                Some(self.replace_at(i, item))
            },
            Err(i) => {
                self.insert_at(i, item);
                None
            },
        }
    }

    /// Removes the item with key `key`, if any, and returns it.
    pub fn remove(&mut self, key: &str) -> (r: Option<T>)
        requires
            old(self).wf(),
        ensures
            final(self).wf(),
            r == old(self).get_spec(key@),
            final(self).to_map() == old(self).to_map().remove(key@),
    {
        match self.find(key) {
            Ok(i) => {
                proof {
                    lemma_map_at(self@, i as int);
                }
                Some(self.remove_at(i))
            },
            Err(_) => {
                assert(self.to_map().remove(key@) =~= self.to_map());
                None
            },
        }
    }
}

} // verus!
