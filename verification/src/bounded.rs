//! Capacity-bounded collections: a sorted species-count map and a held-id
//! list. Both are thin wrappers around a `Vec` that check their capacity
//! before inserting and fail with a typed error instead of growing; the
//! capacity itself is a value supplied when the collection is built, not a
//! constant of this crate.

use vstd::prelude::*;

verus! {

/// Entries are strictly ascending by species id, so iteration order is the
/// key order and every key occurs at most once.
pub open spec fn entries_sorted(s: Seq<(u32, u32)>) -> bool {
    forall|i: int, j: int| 0 <= i < j < s.len() ==> s[i].0 < s[j].0
}

/// Whether some entry carries the given species id.
pub open spec fn contains_species(s: Seq<(u32, u32)>, key: u32) -> bool {
    exists|i: int| 0 <= i < s.len() && s[i].0 == key
}

/// The count stored for a species id, zero when the id is absent.
pub open spec fn count_of(s: Seq<(u32, u32)>, key: u32) -> nat
    decreases s.len(),
{
    if s.len() == 0 {
        0
    } else if s.last().0 == key {
        s.last().1 as nat
    } else {
        count_of(s.drop_last(), key)
    }
}

/// The sum of all stored counts.
pub open spec fn sum_counts(s: Seq<(u32, u32)>) -> nat
    decreases s.len(),
{
    if s.len() == 0 {
        0
    } else {
        sum_counts(s.drop_last()) + s.last().1 as nat
    }
}

/// The walk position of a species id: the first index carrying it, or `-1`
/// when it is absent.
pub open spec fn spec_index_of(s: Seq<(u32, u32)>, key: u32) -> int
    decreases s.len(),
{
    if s.len() == 0 {
        -1
    } else if s[0].0 == key {
        0
    } else {
        let r = spec_index_of(s.skip(1), key);
        if r < 0 {
            -1
        } else {
            r + 1
        }
    }
}

/// Where a new key belongs in a sorted entry sequence: right after every
/// smaller key.
pub open spec fn spec_insert_pos(s: Seq<(u32, u32)>, key: u32) -> int
    decreases s.len(),
{
    if s.len() == 0 {
        0
    } else if s[0].0 >= key {
        0
    } else {
        1 + spec_insert_pos(s.skip(1), key)
    }
}

/// `spec_index_of` finds a present key and misses an absent one.
pub proof fn lemma_spec_index_of(s: Seq<(u32, u32)>, key: u32)
    ensures
        contains_species(s, key) <==> 0 <= spec_index_of(s, key) < s.len(),
        contains_species(s, key) ==> s[spec_index_of(s, key)].0 == key,
    decreases s.len(),
{
    if s.len() > 0 && s[0].0 != key {
        lemma_spec_index_of(s.skip(1), key);
        assert(forall|j: int| 0 <= j < s.skip(1).len() ==> #[trigger] s.skip(1)[j] == s[j + 1]);
        if contains_species(s, key) {
            let i = choose|i: int| 0 <= i < s.len() && s[i].0 == key;
            assert(s.skip(1)[i - 1].0 == key);
            assert(contains_species(s.skip(1), key));
        }
        if contains_species(s.skip(1), key) {
            let i = choose|i: int| 0 <= i < s.skip(1).len() && s.skip(1)[i].0 == key;
            assert(s[i + 1].0 == key);
            assert(contains_species(s, key));
        }
    }
}

/// A match at `i` with no earlier match pins `spec_index_of` to `i`.
pub proof fn lemma_spec_index_of_is_first(s: Seq<(u32, u32)>, key: u32, i: int)
    requires
        0 <= i < s.len(),
        s[i].0 == key,
        forall|j: int| 0 <= j < i ==> s[j].0 != key,
    ensures
        spec_index_of(s, key) == i,
    decreases s.len(),
{
    if i > 0 {
        assert(forall|j: int| 0 <= j < s.skip(1).len() ==> #[trigger] s.skip(1)[j] == s[j + 1]);
        lemma_spec_index_of_is_first(s.skip(1), key, i - 1);
    }
}

/// An insertion position always lies within the sequence.
pub proof fn lemma_spec_insert_pos_range(s: Seq<(u32, u32)>, key: u32)
    ensures
        0 <= spec_insert_pos(s, key) <= s.len(),
    decreases s.len(),
{
    if s.len() > 0 && s[0].0 < key {
        lemma_spec_insert_pos_range(s.skip(1), key);
    }
}

/// A position whose left neighbours are all smaller than `key` and whose
/// own entry is not is exactly `spec_insert_pos`.
pub proof fn lemma_spec_insert_pos_is(s: Seq<(u32, u32)>, key: u32, pos: int)
    requires
        0 <= pos <= s.len(),
        forall|j: int| 0 <= j < pos ==> s[j].0 < key,
        pos < s.len() ==> s[pos].0 >= key,
    ensures
        spec_insert_pos(s, key) == pos,
    decreases s.len(),
{
    if pos > 0 {
        assert(forall|j: int| 0 <= j < s.skip(1).len() ==> #[trigger] s.skip(1)[j] == s[j + 1]);
        lemma_spec_insert_pos_is(s.skip(1), key, pos - 1);
    }
}

/// In a sorted entry sequence the count at a key's index is the count of
/// that key.
pub proof fn lemma_count_at_index(s: Seq<(u32, u32)>, i: int)
    requires
        entries_sorted(s),
        0 <= i < s.len(),
    ensures
        count_of(s, s[i].0) == s[i].1,
    decreases s.len(),
{
    if i == s.len() - 1 {
    } else {
        assert(s.last().0 != s[i].0);
        assert(s.drop_last()[i] == s[i]);
        lemma_count_at_index(s.drop_last(), i);
    }
}

/// The sum of counts never exceeds one maximal count per entry.
pub proof fn lemma_sum_counts_le(s: Seq<(u32, u32)>)
    ensures
        sum_counts(s) <= s.len() * (u32::MAX as nat),
    decreases s.len(),
{
    if s.len() > 0 {
        lemma_sum_counts_le(s.drop_last());
        assert((s.len() - 1) * (u32::MAX as nat) + (u32::MAX as nat) == s.len() * (
        u32::MAX as nat)) by {
            vstd::arithmetic::mul::lemma_mul_is_distributive_sub_other_way(
                u32::MAX as int,
                s.len() as int,
                1,
            );
        }
    }
}

/// Each single count is at most the sum of all of them.
pub proof fn lemma_count_le_sum(s: Seq<(u32, u32)>, i: int)
    requires
        0 <= i < s.len(),
    ensures
        s[i].1 <= sum_counts(s),
    decreases s.len(),
{
    if i == s.len() - 1 {
    } else {
        assert(s.drop_last()[i] == s[i]);
        lemma_count_le_sum(s.drop_last(), i);
    }
}

/// Updating one entry's count moves the sum by exactly the difference.
pub proof fn lemma_sum_counts_update(s: Seq<(u32, u32)>, i: int, v: u32)
    requires
        0 <= i < s.len(),
    ensures
        sum_counts(s.update(i, (s[i].0, v))) == sum_counts(s) - s[i].1 + v,
    decreases s.len(),
{
    let t = s.update(i, (s[i].0, v));
    if i == s.len() - 1 {
        assert(t.drop_last() =~= s.drop_last());
    } else {
        assert(t.drop_last() =~= s.drop_last().update(i, (s[i].0, v)));
        assert(s.drop_last()[i] == s[i]);
        lemma_sum_counts_update(s.drop_last(), i, v);
        assert(t.last() == s.last());
    }
}

/// Removing one entry removes exactly its count from the sum.
pub proof fn lemma_sum_counts_remove(s: Seq<(u32, u32)>, i: int)
    requires
        0 <= i < s.len(),
    ensures
        sum_counts(s.remove(i)) == sum_counts(s) - s[i].1,
    decreases s.len(),
{
    let t = s.remove(i);
    if i == s.len() - 1 {
        assert(t =~= s.drop_last());
    } else {
        assert(t.drop_last() =~= s.drop_last().remove(i));
        assert(s.drop_last()[i] == s[i]);
        lemma_sum_counts_remove(s.drop_last(), i);
        assert(t.last() == s.last());
    }
}

/// Inserting an entry adds exactly its count to the sum.
pub proof fn lemma_sum_counts_insert(s: Seq<(u32, u32)>, i: int, e: (u32, u32))
    requires
        0 <= i <= s.len(),
    ensures
        sum_counts(s.insert(i, e)) == sum_counts(s) + e.1,
    decreases s.len(),
{
    let t = s.insert(i, e);
    if i == s.len() {
        assert(t.drop_last() =~= s);
        assert(t.last() == e);
    } else {
        assert(t.drop_last() =~= s.drop_last().insert(i, e));
        lemma_sum_counts_insert(s.drop_last(), i, e);
        assert(t.last() == s.last());
    }
}

/// A species-count map bounded to a maximum number of distinct species.
/// Entries are kept sorted by species id, so walks over the map are stable
/// and reproducible.
#[derive(Debug)]
pub struct BoundedMap {
    pub entries: Vec<(u32, u32)>,
    pub capacity: u32,
}

impl View for BoundedMap {
    type V = Seq<(u32, u32)>;

    open spec fn view(&self) -> Seq<(u32, u32)> {
        self.entries@
    }
}

impl BoundedMap {
    /// Sorted, within capacity.
    pub open spec fn wf(self) -> bool {
        &&& entries_sorted(self@)
        &&& self@.len() <= self.capacity
    }

    /// An empty map that will hold at most `capacity` distinct species.
    pub fn new(capacity: u32) -> (m: BoundedMap)
        ensures
            m@ == Seq::<(u32, u32)>::empty(),
            m.capacity == capacity,
            m.wf(),
    {
        BoundedMap { entries: Vec::new(), capacity }
    }

    /// How many distinct species are present.
    pub fn len(&self) -> (n: usize)
        ensures
            n == self@.len(),
    {
        self.entries.len()
    }

    /// The entry at a walk position, in ascending id order.
    pub fn entry_at(&self, i: usize) -> (e: (u32, u32))
        requires
            i < self@.len(),
        ensures
            e == self@[i as int],
    {
        self.entries[i]
    }

    /// Where the given species id is stored, if it is present.
    pub fn index_of(&self, key: u32) -> (r: Option<usize>)
        requires
            self.wf(),
        ensures
            match r {
                Some(i) => i < self@.len() && self@[i as int].0 == key && i == spec_index_of(
                    self@,
                    key,
                ) && contains_species(self@, key),
                None => !contains_species(self@, key),
            },
    {
        let n: usize = self.entries.len();
        let mut i: usize = 0;
        while i < n
            invariant
                i <= n,
                n == self@.len(),
                forall|j: int| 0 <= j < i ==> self@[j].0 != key,
            decreases n - i,
        {
            if self.entries[i].0 == key {
                proof {
                    lemma_spec_index_of_is_first(self@, key, i as int);
                }
                return Some(i);
            }
            i = i + 1;
        }
        None
    }

    /// The live count recorded for a species, if the species is present.
    pub fn get(&self, key: u32) -> (r: Option<u32>)
        requires
            self.wf(),
        ensures
            match r {
                Some(v) => contains_species(self@, key) && v == count_of(self@, key),
                None => !contains_species(self@, key),
            },
    {
        match self.index_of(key) {
            Some(i) => {
                proof {
                    lemma_count_at_index(self@, i as int);
                }
                Some(self.entries[i].1)
            },
            None => None,
        }
    }

    /// Whether the species is present at all.
    pub fn contains_key(&self, key: u32) -> (r: bool)
        requires
            self.wf(),
        ensures
            r == contains_species(self@, key),
    {
        self.index_of(key).is_some()
    }

    /// Overwrites the count stored at walk position `i`, keeping the key.
    pub fn set_count_at(&mut self, i: usize, v: u32)
        requires
            old(self).wf(),
            i < old(self)@.len(),
        ensures
            final(self)@ == old(self)@.update(i as int, (old(self)@[i as int].0, v)),
            final(self).capacity == old(self).capacity,
            final(self).wf(),
    {
        let key: u32 = self.entries[i].0;
        self.entries.set(i, (key, v));
        proof {
            assert(entries_sorted(self@)) by {
                assert(forall|a: int, b: int|
                    0 <= a < b < self@.len() ==> self@[a].0 == old(self)@[a].0 && self@[b].0 == old(
                        self,
                    )@[b].0);
            }
        }
    }

    /// Removes the entry at walk position `i` entirely.
    pub fn remove_at(&mut self, i: usize)
        requires
            old(self).wf(),
            i < old(self)@.len(),
        ensures
            final(self)@ == old(self)@.remove(i as int),
            final(self).capacity == old(self).capacity,
            final(self).wf(),
    {
        self.entries.remove(i);
        proof {
            assert(entries_sorted(self@)) by {
                assert(forall|a: int, b: int| 0 <= a < b < self@.len() ==> self@[a].0 < self@[b].0)
                    by {
                    assert(forall|a: int|
                        0 <= a < self@.len() ==> self@[a] == if a < i {
                            old(self)@[a]
                        } else {
                            old(self)@[a + 1]
                        });
                }
            }
        }
    }

    /// Adds a species that is not yet present, keeping the entries sorted.
    /// The capacity is checked before anything is mutated: a full map is
    /// left untouched and the insertion is refused.
    pub fn try_insert(&mut self, key: u32, value: u32) -> (r: Result<(), ()>)
        requires
            old(self).wf(),
            !contains_species(old(self)@, key),
        ensures
            final(self).capacity == old(self).capacity,
            final(self).wf(),
            old(self)@.len() < old(self).capacity ==> r == Ok::<(), ()>(()) && final(self)@ == old(
                self,
            )@.insert(spec_insert_pos(old(self)@, key), (key, value)),
            old(self)@.len() >= old(self).capacity ==> r == Err::<(), ()>(()) && final(self)@ == old(
                self,
            )@,
    {
        if self.entries.len() >= self.capacity as usize {
            return Err(());
        }
        let n: usize = self.entries.len();
        let mut pos: usize = 0;
        while pos < n && self.entries[pos].0 < key
            invariant
                pos <= n,
                n == self@.len(),
                forall|j: int| 0 <= j < pos ==> self@[j].0 < key,
            decreases n - pos,
        {
            pos = pos + 1;
        }
        proof {
            let s = self@;
            assert(forall|j: int| pos <= j < s.len() ==> s[j].0 > key) by {
                if (pos as int) < s.len() {
                    assert(s[pos as int].0 != key);
                    assert(forall|j: int|
                        pos < j < s.len() ==> s[pos as int].0 < #[trigger] s[j].0);
                }
            }
            lemma_spec_insert_pos_is(s, key, pos as int);
        }
        self.entries.insert(pos, (key, value));
        proof {
            let s = old(self)@;
            let t = self@;
            assert(t == s.insert(pos as int, (key, value)));
            assert forall|a: int, b: int| 0 <= a < b < t.len() implies t[a].0 < t[b].0 by {
                assert(forall|x: int|
                    0 <= x < t.len() ==> #[trigger] t[x] == if x < pos {
                        s[x]
                    } else if x == pos {
                        (key, value)
                    } else {
                        s[x - 1]
                    });
            }
        }
        Ok(())
    }
}

/// An ordered list of held jokeymon ids bounded to a maximum length.
#[derive(Debug)]
pub struct BoundedVec {
    pub items: Vec<u64>,
    pub capacity: u32,
}

impl View for BoundedVec {
    type V = Seq<u64>;

    open spec fn view(&self) -> Seq<u64> {
        self.items@
    }
}

impl BoundedVec {
    /// Within capacity.
    pub open spec fn wf(self) -> bool {
        self@.len() <= self.capacity
    }

    /// An empty list that will hold at most `capacity` ids.
    pub fn new(capacity: u32) -> (v: BoundedVec)
        ensures
            v@ == Seq::<u64>::empty(),
            v.capacity == capacity,
            v.wf(),
    {
        BoundedVec { items: Vec::new(), capacity }
    }

    /// How many ids are held.
    pub fn len(&self) -> (n: usize)
        ensures
            n == self@.len(),
    {
        self.items.len()
    }

    /// The id at a position, oldest first.
    pub fn get(&self, i: usize) -> (id: u64)
        requires
            i < self@.len(),
        ensures
            id == self@[i as int],
    {
        self.items[i]
    }

    /// Appends an id. The capacity is checked before the list is touched: a
    /// full list stays unchanged and the push is refused.
    pub fn try_push(&mut self, id: u64) -> (r: Result<(), ()>)
        requires
            old(self).wf(),
        ensures
            final(self).capacity == old(self).capacity,
            final(self).wf(),
            old(self)@.len() < old(self).capacity ==> r == Ok::<(), ()>(()) && final(self)@ == old(
                self,
            )@.push(id),
            old(self)@.len() >= old(self).capacity ==> r == Err::<(), ()>(()) && final(self)@ == old(
                self,
            )@,
    {
        if self.items.len() >= self.capacity as usize {
            return Err(());
        }
        self.items.push(id);
        Ok(())
    }
}

} // verus!
