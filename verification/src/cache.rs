//! Byte-budget LRU cache for decoded images. The caller supplies the cost
//! (estimated bytes) at insert time, and the cache evicts the least recently
//! used entries once the total cost passes the budget. A single entry bigger
//! than the whole budget still stays until something newer pushes it out.

use vstd::prelude::*;

use crate::path::{same_path, FilePath};
use crate::text::same_text;

verus! {

/// What a cache needs of its keys: a way to tell them apart.
pub trait CacheKey: Sized {
    /// Whether two keys stand for the same thing.
    spec fn matches_spec(&self, other: &Self) -> bool;

    /// Telling keys apart is an equivalence.
    proof fn equivalence()
        ensures
            forall|a: Self| #[trigger] a.matches_spec(&a),
            forall|a: Self, b: Self| #[trigger] a.matches_spec(&b) ==> b.matches_spec(&a),
            forall|a: Self, b: Self, c: Self| #[trigger]
                a.matches_spec(&b) && #[trigger] b.matches_spec(&c) ==> a.matches_spec(&c),
    ;

    fn matches(&self, other: &Self) -> (same: bool)
        ensures
            same == self.matches_spec(other),
    ;
}

impl CacheKey for u64 {
    open spec fn matches_spec(&self, other: &Self) -> bool {
        *self == *other
    }

    proof fn equivalence() {
    }

    fn matches(&self, other: &Self) -> (same: bool) {
        *self == *other
    }
}

impl<'a> CacheKey for &'a str {
    open spec fn matches_spec(&self, other: &Self) -> bool {
        self@ == other@
    }

    proof fn equivalence() {
    }

    fn matches(&self, other: &Self) -> (same: bool) {
        same_text(self, other)
    }
}

impl CacheKey for String {
    open spec fn matches_spec(&self, other: &Self) -> bool {
        self@ == other@
    }

    proof fn equivalence() {
    }

    fn matches(&self, other: &Self) -> (same: bool) {
        same_text(self.as_str(), other.as_str())
    }
}

impl CacheKey for FilePath {
    open spec fn matches_spec(&self, other: &Self) -> bool {
        same_path(self@, other@)
    }

    proof fn equivalence() {
    }

    fn matches(&self, other: &Self) -> (same: bool) {
        self.same(other)
    }
}

/// One cached value.
pub struct Entry<K, V> {
    pub key: K,
    pub value: V,
    pub cost: usize,
}

/// Where `key` stands among the entries.
pub open spec fn is_at<K: CacheKey, V>(entries: Seq<Entry<K, V>>, key: K, i: int) -> bool {
    0 <= i < entries.len() && entries[i].key.matches_spec(&key)
}

/// Whether the entries hold `key`.
pub open spec fn holds<K: CacheKey, V>(entries: Seq<Entry<K, V>>, key: K) -> bool {
    exists|i: int| is_at(entries, key, i)
}

/// The place of `key` among entries that hold it.
pub open spec fn place<K: CacheKey, V>(entries: Seq<Entry<K, V>>, key: K) -> int {
    choose|i: int| is_at(entries, key, i)
}

/// The entries without the one for `key`.
pub open spec fn without<K: CacheKey, V>(entries: Seq<Entry<K, V>>, key: K) -> Seq<Entry<K, V>> {
    if holds(entries, key) {
        entries.remove(place(entries, key))
    } else {
        entries
    }
}

/// The entries after a use of `key`: its entry comes last.
pub open spec fn used<K: CacheKey, V>(entries: Seq<Entry<K, V>>, key: K) -> Seq<Entry<K, V>> {
    if holds(entries, key) {
        without(entries, key).push(entries[place(entries, key)])
    } else {
        entries
    }
}

/// What the entries cost together.
pub open spec fn total_cost<K, V>(entries: Seq<Entry<K, V>>) -> nat
    decreases entries.len(),
{
    if entries.len() == 0 {
        0
    } else {
        entries[0].cost as nat + total_cost(entries.skip(1))
    }
}

/// How many entries leave, the least recently used first, until the rest
/// fits the budget or only one is left.
pub open spec fn evictions<K, V>(entries: Seq<Entry<K, V>>, budget: nat) -> nat
    decreases entries.len(),
{
    if entries.len() <= 1 || total_cost(entries) <= budget {
        0
    } else {
        1 + evictions(entries.skip(1), budget)
    }
}

/// No two entries have the same key.
pub open spec fn distinct<K: CacheKey, V>(entries: Seq<Entry<K, V>>) -> bool {
    forall|i: int, j: int|
        0 <= i < entries.len() && 0 <= j < entries.len() && i != j
            ==> !#[trigger] entries[i].key.matches_spec(&#[trigger] entries[j].key)
}

/// Least-recently-used cache with a budget. Its view lists the entries, the
/// least recently used first.
pub struct LruCache<K, V> {
    budget: usize,
    total: usize,
    entries: Vec<Entry<K, V>>,
}

impl<K, V> View for LruCache<K, V> {
    type V = Seq<Entry<K, V>>;

    closed spec fn view(&self) -> Seq<Entry<K, V>> {
        self.entries@
    }
}

proof fn cost_of_push<K, V>(entries: Seq<Entry<K, V>>, entry: Entry<K, V>)
    ensures
        total_cost(entries.push(entry)) == total_cost(entries) + entry.cost,
    decreases entries.len(),
{
    let longer = entries.push(entry);
    if entries.len() == 0 {
        assert(longer.skip(1) =~= Seq::empty());
        assert(total_cost(longer.skip(1)) == 0);
    } else {
        assert(longer.skip(1) =~= entries.skip(1).push(entry));
        cost_of_push(entries.skip(1), entry);
    }
}

proof fn cost_of_remove<K, V>(entries: Seq<Entry<K, V>>, i: int)
    requires
        0 <= i < entries.len(),
    ensures
        total_cost(entries.remove(i)) + entries[i].cost == total_cost(entries),
    decreases entries.len(),
{
    if i == 0 {
        assert(entries.remove(0) =~= entries.skip(1));
    } else {
        assert(entries.remove(i).skip(1) =~= entries.skip(1).remove(i - 1));
        cost_of_remove(entries.skip(1), i - 1);
    }
}

/// Where entries are distinct, a key has one place.
proof fn place_is_unique<K: CacheKey, V>(entries: Seq<Entry<K, V>>, key: K, i: int)
    requires
        distinct(entries),
        is_at(entries, key, i),
    ensures
        holds(entries, key),
        place(entries, key) == i,
{
    K::equivalence();
    let p = place(entries, key);
    assert(is_at(entries, key, p));
    if p != i {
        assert(key.matches_spec(&entries[i].key));
        assert(entries[p].key.matches_spec(&entries[i].key));
    }
}

impl<K: CacheKey, V> LruCache<K, V> {
    /// The most that the entries may cost together, but for a last one.
    pub closed spec fn limit(self) -> nat {
        self.budget as nat
    }

    /// What every operation keeps: keys are distinct, and the running total
    /// is what the entries cost.
    pub closed spec fn well_formed(self) -> bool {
        &&& distinct(self.entries@)
        &&& self.total == total_cost(self.entries@)
    }

    /// No key has two entries.
    pub proof fn keys_are_distinct(&self)
        requires
            self.well_formed(),
        ensures
            distinct(self@),
    {
    }

    pub fn new(budget: usize) -> (cache: Self)
        ensures
            cache.well_formed(),
            cache.limit() == budget,
            cache@ == Seq::<Entry<K, V>>::empty(),
    {
        LruCache { budget, total: 0, entries: Vec::new() }
    }

    /// Where the entry for `key` stands.
    fn find(&self, key: &K) -> (found: Option<usize>)
        requires
            self.well_formed(),
        ensures
            match found {
                Some(i) => is_at(self@, *key, i as int) && holds(self@, *key) && place(self@, *key)
                    == i,
                None => !holds(self@, *key),
            },
    {
        let mut i: usize = 0;
        while i < self.entries.len()
            invariant
                i <= self.entries.len(),
                self.well_formed(),
                forall|j: int| 0 <= j < i ==> !is_at(self@, *key, j),
            decreases self.entries.len() - i,
        {
            if self.entries[i].key.matches(key) {
                proof {
                    place_is_unique(self@, *key, i as int);
                }
                return Some(i);
            }
            i += 1;
        }
        None
    }

    /// Look up and mark as most recently used.
    pub fn get(&mut self, key: &K) -> (value: Option<&V>)
        requires
            old(self).well_formed(),
        ensures
            final(self).well_formed(),
            final(self).limit() == old(self).limit(),
            final(self)@ == used(old(self)@, *key),
            match value {
                Some(v) => holds(old(self)@, *key) && *v == old(self)@[place(
                    old(self)@,
                    *key,
                )].value,
                None => !holds(old(self)@, *key),
            },
    {
        match self.find(key) {
            Some(i) => {
                let ghost before = self.entries@;
                let entry = self.entries.remove(i);
                proof {
                    cost_of_remove(before, i as int);
                    cost_of_push(self.entries@, entry);
                }
                self.entries.push(entry);
                assert(distinct(self.entries@));
                let last: usize = self.entries.len() - 1;
                Some(&self.entries[last].value)
            },
            None => None,
        }
    }

    /// Peek without touching the use order.
    pub fn contains(&self, key: &K) -> (held: bool)
        requires
            self.well_formed(),
        ensures
            held == holds(self@, *key),
    {
        self.find(key).is_some()
    }

    /// The value for a key, without touching the use order.
    pub fn peek(&self, key: &K) -> (value: Option<&V>)
        requires
            self.well_formed(),
        ensures
            match value {
                Some(v) => holds(self@, *key) && *v == self@[place(self@, *key)].value,
                None => !holds(self@, *key),
            },
    {
        match self.find(key) {
            Some(i) => Some(&self.entries[i].value),
            None => None,
        }
    }

    /// Whether the running total stays in range when `key` comes in at
    /// `cost`.
    pub fn has_room(&self, key: &K, cost: usize) -> (room: bool)
        requires
            self.well_formed(),
        ensures
            room == (total_cost(without(self@, *key)) + cost <= usize::MAX),
    {
        let rest = match self.find(key) {
            Some(i) => {
                proof {
                    cost_of_remove(self@, i as int);
                }
                self.total - self.entries[i].cost
            },
            None => self.total,
        };
        cost <= usize::MAX - rest
    }

    /// Insert as most recently used and evict past the budget. The returned
    /// keys were evicted, the least recently used first; the key just
    /// inserted never is.
    pub fn insert(&mut self, key: K, value: V, cost: usize) -> (evicted: Vec<K>)
        requires
            old(self).well_formed(),
            total_cost(without(old(self)@, key)) + cost <= usize::MAX,
        ensures
            final(self).well_formed(),
            final(self).limit() == old(self).limit(),
            ({
                let full = without(old(self)@, key).push(Entry { key, value, cost });
                let gone = evictions(full, old(self).limit());
                &&& gone < full.len()
                &&& final(self)@ == full.skip(gone as int)
                &&& evicted@ == full.take(gone as int).map_values(|e: Entry<K, V>| e.key)
            }),
            forall|i: int|
                0 <= i < evicted@.len() ==> !(#[trigger] evicted@[i]).matches_spec(&key),
            holds(final(self)@, key),
            final(self)@[place(final(self)@, key)] == (Entry { key, value, cost }),
    {
        self.remove(&key);
        let ghost base = self.entries@;
        let ghost full = base.push(Entry { key, value, cost });
        self.total = self.total + cost;
        proof {
            cost_of_push(base, Entry { key, value, cost });
            K::equivalence();
            assert forall|i: int| 0 <= i < base.len() implies !(
            #[trigger] base[i]).key.matches_spec(&key) by {
                assert(!is_at(base, key, i));
            }
        }
        self.entries.push(Entry { key, value, cost });
        assert(distinct(self.entries@));
        let mut evicted: Vec<K> = Vec::new();
        let ghost gone: int = 0;
        assert(full.skip(0) =~= full);
        assert(full.take(0).map_values(|e: Entry<K, V>| e.key) =~= Seq::empty());
        while self.total > self.budget && self.entries.len() > 1
            invariant
                self.well_formed(),
                self.limit() == old(self).limit(),
                0 <= gone < full.len(),
                self.entries@ == full.skip(gone),
                evicted@ == full.take(gone).map_values(|e: Entry<K, V>| e.key),
                evictions(full, self.limit()) == gone + evictions(self.entries@, self.limit()),
            decreases self.entries.len(),
        {
            let ghost before = self.entries@;
            let oldest = self.entries.remove(0);
            assert(self.entries@ =~= before.skip(1));
            self.total = self.total - oldest.cost;
            evicted.push(oldest.key);
            proof {
                assert(full.skip(gone).skip(1) =~= full.skip(gone + 1));
                assert(full.take(gone + 1).map_values(|e: Entry<K, V>| e.key) =~= full.take(
                    gone,
                ).map_values(|e: Entry<K, V>| e.key).push(full[gone].key));
                gone = gone + 1;
            }
        }
        assert forall|i: int| 0 <= i < evicted@.len() implies !(
        #[trigger] evicted@[i]).matches_spec(&key) by {
            assert(evicted@[i] == base[i].key);
        }
        proof {
            K::equivalence();
            let newest = self@.len() - 1;
            assert(self@[newest] == full.last());
            assert(is_at(self@, key, newest));
            place_is_unique(self@, key, newest);
        }
        evicted
    }

    pub fn remove(&mut self, key: &K) -> (value: Option<V>)
        requires
            old(self).well_formed(),
        ensures
            final(self).well_formed(),
            final(self).limit() == old(self).limit(),
            final(self)@ == without(old(self)@, *key),
            match value {
                Some(v) => holds(old(self)@, *key) && v == old(self)@[place(
                    old(self)@,
                    *key,
                )].value,
                None => !holds(old(self)@, *key),
            },
            !holds(final(self)@, *key),
    {
        match self.find(key) {
            Some(i) => {
                let ghost before = self.entries@;
                let entry = self.entries.remove(i);
                proof {
                    cost_of_remove(before, i as int);
                    K::equivalence();
                    if holds(self.entries@, *key) {
                        let j = place(self.entries@, *key);
                        let k = if j < i { j } else { j + 1 };
                        assert(is_at(before, *key, k));
                        place_is_unique(before, *key, k);
                    }
                }
                self.total = self.total - entry.cost;
                Some(entry.value)
            },
            None => None,
        }
    }

    pub fn clear(&mut self)
        ensures
            final(self).well_formed(),
            final(self).limit() == old(self).limit(),
            final(self)@ == Seq::<Entry<K, V>>::empty(),
    {
        self.entries.clear();
        self.total = 0;
    }

    pub fn len(&self) -> (count: usize)
        ensures
            count == self@.len(),
    {
        self.entries.len()
    }

    pub fn is_empty(&self) -> (empty: bool)
        ensures
            empty == (self@.len() == 0),
    {
        self.entries.len() == 0
    }
}

/// The entries that an insert leaves behind.
pub open spec fn inserted<K: CacheKey, V>(
    entries: Seq<Entry<K, V>>,
    entry: Entry<K, V>,
    budget: nat,
) -> Seq<Entry<K, V>> {
    let full = without(entries, entry.key).push(entry);
    full.skip(evictions(full, budget) as int)
}

/// After an eviction the rest fits the budget, or a single entry is left;
/// and no smaller eviction would have done.
pub proof fn eviction_is_enough_and_no_more<K, V>(entries: Seq<Entry<K, V>>, budget: nat)
    ensures
        ({
            let gone = evictions(entries, budget) as int;
            let rest = entries.skip(gone);
            &&& gone <= entries.len()
            &&& entries.len() > 0 ==> rest.len() > 0
            &&& total_cost(rest) <= budget || rest.len() <= 1
            &&& forall|fewer: int|
                0 <= fewer < gone ==> total_cost(#[trigger] entries.skip(fewer)) > budget
        }),
    decreases entries.len(),
{
    if entries.len() <= 1 || total_cost(entries) <= budget {
        assert(entries.skip(0) =~= entries);
    } else {
        let tail = entries.skip(1);
        eviction_is_enough_and_no_more(tail, budget);
        let gone = evictions(entries, budget) as int;
        assert(entries.skip(gone) =~= tail.skip(gone - 1));
        assert forall|fewer: int| 0 <= fewer < gone implies total_cost(
            #[trigger] entries.skip(fewer),
        ) > budget by {
            if fewer == 0 {
                assert(entries.skip(0) =~= entries);
            } else {
                assert(entries.skip(fewer) =~= tail.skip(fewer - 1));
            }
        }
    }
}

/// An insert is read back: the key is held afterwards, with the value it was
/// inserted with, and it is the most recently used one.
pub proof fn insert_is_read_back<K: CacheKey, V>(
    entries: Seq<Entry<K, V>>,
    entry: Entry<K, V>,
    budget: nat,
)
    requires
        distinct(entries),
    ensures
        ({
            let after = inserted(entries, entry, budget);
            &&& after.len() > 0
            &&& after.last() == entry
            &&& holds(after, entry.key)
            &&& after[place(after, entry.key)] == entry
            &&& distinct(after)
        }),
{
    let base = without(entries, entry.key);
    let full = base.push(entry);
    let after = inserted(entries, entry, budget);
    eviction_is_enough_and_no_more(full, budget);
    K::equivalence();
    without_forgets(entries, entry.key);
    assert forall|i: int| 0 <= i < base.len() implies !(#[trigger] base[i]).key.matches_spec(
        &entry.key,
    ) by {
        assert(!is_at(base, entry.key, i));
    }
    assert(distinct(full));
    assert(is_at(after, entry.key, after.len() - 1));
    place_is_unique(after, entry.key, after.len() - 1);
}

/// A removed key is no longer held, and every other key still is, with the
/// value it had.
pub proof fn without_forgets<K: CacheKey, V>(entries: Seq<Entry<K, V>>, key: K)
    requires
        distinct(entries),
    ensures
        distinct(without(entries, key)),
        !holds(without(entries, key), key),
        forall|other: K|
            !other.matches_spec(&key) && #[trigger] holds(entries, other) ==> holds(
                without(entries, key),
                other,
            ) && without(entries, key)[place(without(entries, key), other)] == entries[place(
                entries,
                other,
            )],
{
    K::equivalence();
    let rest = without(entries, key);
    if holds(entries, key) {
        let p = place(entries, key);
        assert(is_at(entries, key, p));
        if holds(rest, key) {
            let j = place(rest, key);
            let k = if j < p { j } else { j + 1 };
            assert(is_at(entries, key, k));
            place_is_unique(entries, key, k);
        }
        assert forall|other: K|
            !other.matches_spec(&key) && #[trigger] holds(entries, other) implies holds(rest, other)
            && rest[place(rest, other)] == entries[place(entries, other)] by {
            let q = place(entries, other);
            assert(is_at(entries, other, q));
            assert(q != p);
            let r = if q < p { q } else { q - 1 };
            assert(is_at(rest, other, r));
            place_is_unique(rest, other, r);
        }
    }
}

/// A use changes the order only: the same keys are held, with the same
/// values, and the key that was used comes last.
pub proof fn use_keeps_every_entry<K: CacheKey, V>(entries: Seq<Entry<K, V>>, key: K)
    requires
        distinct(entries),
        holds(entries, key),
    ensures
        distinct(used(entries, key)),
        used(entries, key).last() == entries[place(entries, key)],
        used(entries, key).to_multiset() == entries.to_multiset(),
        total_cost(used(entries, key)) == total_cost(entries),
{
    let p = place(entries, key);
    let rest = without(entries, key);
    assert(is_at(entries, key, p));
    cost_of_remove(entries, p);
    cost_of_push(rest, entries[p]);
    broadcast use vstd::seq_lib::group_to_multiset_ensures;

    assert(rest == entries.remove(p));
    assert(used(entries, key).to_multiset() =~= entries.to_multiset());
}

/// Costs add up, entry by entry.
pub proof fn costs_add_up<K, V>(entries: Seq<Entry<K, V>>, entry: Entry<K, V>)
    ensures
        total_cost(Seq::<Entry<K, V>>::empty()) == 0,
        total_cost(entries.push(entry)) == total_cost(entries) + entry.cost,
{
    cost_of_push(entries, entry);
}

/// A use brings an entry to the end and leaves the others in their order; a
/// removal leaves the others in their order.
pub proof fn uses_come_last<K: CacheKey, V>(entries: Seq<Entry<K, V>>, key: K, at: int)
    requires
        distinct(entries),
        0 <= at < entries.len(),
        entries[at].key.matches_spec(&key),
    ensures
        used(entries, key) == entries.remove(at).push(entries[at]),
        without(entries, key) == entries.remove(at),
{
    assert(is_at(entries, key, at));
    place_is_unique(entries, key, at);
}

} // verus!
