//! The bank cache: a bounded least-recently-used store of cartridge banks.

use vstd::prelude::*;

verus! {

/// The size of one bank in bytes.
pub const BANK_SIZE: usize = 0x4000;

/// The largest number of banks that a cache can be made to hold.
pub const MAX_BANKS: usize = 10;

/// A recency list of at most ten pairs of key and value, kept by
/// `const_lru::ConstLru`.
#[verifier::external_body]
pub struct RecencyList {
    inner: const_lru::ConstLru<usize, usize, 10, u8>,
}

/// What `insert` of the recency list gave up to make room or to take the new
/// value: the least recently used pair, or the old value of the key.
pub enum Replaced {
    LruEvicted(usize, usize),
    OldValue(usize),
}

/// What a recency list holds: its pairs of key and value, the most recently
/// used pair first and the least recently used pair last.
pub uninterp spec fn lru_entries(list: RecencyList) -> Seq<(usize, usize)>;

/// Where `key` stands in `entries`: the position of the first pair with that
/// key, or the length of `entries` if there is none.
pub open spec fn key_position<V>(entries: Seq<(usize, V)>, key: usize) -> int
    decreases entries.len(),
{
    if entries.len() == 0 {
        0
    } else if entries[0].0 == key {
        0
    } else {
        1 + key_position(entries.skip(1), key)
    }
}

/// `entries` after the pair at `position` has been used: it has moved to the
/// front, and the others have kept their order.
pub open spec fn touched<V>(entries: Seq<(usize, V)>, position: int) -> Seq<(usize, V)> {
    seq![entries[position]] + entries.remove(position)
}

/// The keys of `entries`, in their order.
pub open spec fn keys_of<V>(entries: Seq<(usize, V)>) -> Seq<usize> {
    Seq::new(entries.len(), |p: int| entries[p].0)
}

/// Wraps `ConstLru::new`: the new list holds nothing.
#[verifier::external_body]
fn lru_new() -> (list: RecencyList)
    ensures
        lru_entries(list) == Seq::<(usize, usize)>::empty(),
{
    RecencyList { inner: const_lru::ConstLru::new() }
}

/// Wraps `ConstLru::len`: the number of pairs held.
#[verifier::external_body]
fn lru_len(list: &RecencyList) -> (len: usize)
    ensures
        len == lru_entries(*list).len(),
{
    list.inner.len() as usize
}

/// Wraps `ConstLru::get`: the value stored for `key`, if there is one; the
/// pair found becomes the most recently used, and nothing else changes.
#[verifier::external_body]
fn lru_get(list: &mut RecencyList, key: usize) -> (value: Option<usize>)
    ensures
        ({
            let before = lru_entries(*old(list));
            let position = key_position(before, key);
            if position < before.len() {
                &&& value == Some(before[position].1)
                &&& lru_entries(*final(list)) == touched(before, position)
            } else {
                &&& value.is_none()
                &&& lru_entries(*final(list)) == before
            }
        }),
{
    list.inner.get(&key).copied()
}

/// Wraps `ConstLru::insert`: the pair becomes the most recently used. Where
/// the key was held already, its old pair is gone and the old value comes
/// back; else a full list gives up its least recently used pair, which comes
/// back; else nothing comes back.
#[verifier::external_body]
fn lru_insert(list: &mut RecencyList, key: usize, value: usize) -> (replaced: Option<Replaced>)
    ensures
        ({
            let before = lru_entries(*old(list));
            let after = lru_entries(*final(list));
            let position = key_position(before, key);
            if position < before.len() {
                &&& replaced == Some(Replaced::OldValue(before[position].1))
                &&& after == seq![(key, value)] + before.remove(position)
            } else if before.len() == 10 {
                &&& replaced == Some(Replaced::LruEvicted(before.last().0, before.last().1))
                &&& after == seq![(key, value)] + before.drop_last()
            } else {
                &&& replaced.is_none()
                &&& after == seq![(key, value)] + before
            }
        }),
{
    match list.inner.insert(key, value) {
        None => None,
        Some(const_lru::InsertReplaced::LruEvicted(k, v)) => Some(Replaced::LruEvicted(k, v)),
        Some(const_lru::InsertReplaced::OldValue(v)) => Some(Replaced::OldValue(v)),
    }
}

/// Wraps `ConstLru::remove`: the pair with `key` leaves the list and its value
/// comes back; the others keep their order.
#[verifier::external_body]
fn lru_remove(list: &mut RecencyList, key: usize) -> (value: Option<usize>)
    ensures
        ({
            let before = lru_entries(*old(list));
            let position = key_position(before, key);
            if position < before.len() {
                &&& value == Some(before[position].1)
                &&& lru_entries(*final(list)) == before.remove(position)
            } else {
                &&& value.is_none()
                &&& lru_entries(*final(list)) == before
            }
        }),
{
    list.inner.remove(&key)
}

/// Wraps `ConstLru::iter`: the keys held, from the most recently used to the
/// least recently used.
#[verifier::external_body]
fn lru_keys(list: &RecencyList) -> (keys: Vec<usize>)
    ensures
        keys@ == keys_of(lru_entries(*list)),
{
    list.inner.iter().map(|(k, _)| *k).collect()
}

/// No key stands twice in `entries`.
pub open spec fn distinct_keys<V>(entries: Seq<(usize, V)>) -> bool {
    forall|i: int, j: int| 0 <= i < j < entries.len() ==> entries[i].0 != entries[j].0
}

/// The position that `key_position` gives lies within `entries` or just
/// behind it; the pair there has the key, and no pair before it has.
pub proof fn lemma_key_position<V>(entries: Seq<(usize, V)>, key: usize)
    ensures
        0 <= key_position(entries, key) <= entries.len(),
        key_position(entries, key) < entries.len() ==> entries[key_position(entries, key)].0 == key,
        forall|q: int| 0 <= q < key_position(entries, key) ==> entries[q].0 != key,
    decreases entries.len(),
{
    if entries.len() > 0 && entries[0].0 != key {
        let rest = entries.skip(1);
        lemma_key_position(rest, key);
        assert forall|q: int| 0 <= q < key_position(entries, key) implies entries[q].0 != key by {
            if q > 0 {
                assert(entries[q] == rest[q - 1]);
            }
        }
    }
}

/// The first pair with the key is where `key_position` says.
pub proof fn lemma_key_position_found<V>(entries: Seq<(usize, V)>, key: usize, position: int)
    requires
        0 <= position < entries.len(),
        entries[position].0 == key,
        forall|q: int| 0 <= q < position ==> entries[q].0 != key,
    ensures
        key_position(entries, key) == position,
{
    lemma_key_position(entries, key);
    let found = key_position(entries, key);
    if found < position {
        assert(entries[found].0 != key);
    }
}

/// Where no pair has the key, `key_position` gives the length.
pub proof fn lemma_key_position_missing<V>(entries: Seq<(usize, V)>, key: usize)
    requires
        forall|q: int| 0 <= q < entries.len() ==> entries[q].0 != key,
    ensures
        key_position(entries, key) == entries.len(),
{
    lemma_key_position(entries, key);
}

/// A cache of at most `capacity` banks. The recency list maps each cached bank
/// to the slot that holds its bytes.
pub struct BankCache {
    recency: RecencyList,
    banks: Vec<Vec<u8>>,
    capacity: usize,
}

impl BankCache {
    /// The cached banks with their bytes, the most recently used first.
    pub closed spec fn view(&self) -> Seq<(usize, Seq<u8>)> {
        let entries = lru_entries(self.recency);
        Seq::new(entries.len(), |p: int| (entries[p].0, self.banks@[entries[p].1 as int]@))
    }

    /// The number of banks that the cache may hold.
    pub closed spec fn limit(&self) -> int {
        self.capacity as int
    }

    /// The slots are used by exactly one bank each, and every slot holds a
    /// whole bank.
    pub closed spec fn slots_ok(&self) -> bool {
        let entries = lru_entries(self.recency);
        &&& self.banks@.len() == entries.len()
        &&& forall|p: int| 0 <= p < entries.len() ==> (#[trigger] entries[p]).1 < self.banks@.len()
        &&& forall|i: int, j: int| 0 <= i < j < entries.len() ==> entries[i].1 != entries[j].1
        &&& forall|s: int| 0 <= s < self.banks@.len() ==> (#[trigger] self.banks@[s])@.len() == BANK_SIZE
    }

    /// The cache holds no bank twice and no more banks than it may.
    pub open spec fn wf(&self) -> bool {
        &&& 1 <= self.limit() <= MAX_BANKS
        &&& self@.len() <= self.limit()
        &&& distinct_keys(self@)
        &&& forall|p: int| 0 <= p < self@.len() ==> (#[trigger] self@[p]).1.len() == BANK_SIZE
        &&& self.slots_ok()
    }

    /// An empty cache for up to `capacity` banks.
    pub fn new(capacity: usize) -> (cache: Self)
        requires
            1 <= capacity <= MAX_BANKS,
        ensures
            cache.wf(),
            cache@.len() == 0,
            cache.limit() == capacity,
    {
        BankCache { recency: lru_new(), banks: Vec::new(), capacity }
    }

    /// The number of banks that the cache may hold.
    pub fn capacity(&self) -> (capacity: usize)
        ensures
            capacity == self.limit(),
    {
        self.capacity
    }

    /// The number of banks held.
    pub fn len(&self) -> (len: usize)
        ensures
            len == self@.len(),
    {
        lru_len(&self.recency)
    }

    /// The banks held, the most recently used first.
    pub fn cached_banks(&self) -> (banks: Vec<usize>)
        ensures
            banks@ == keys_of(self@),
    {
        let banks = lru_keys(&self.recency);
        proof {
            assert(banks@ =~= keys_of(self@));
        }
        banks
    }

    /// The byte at `index` of `bank`, if the bank is cached. A bank that is
    /// found becomes the most recently used; a miss changes nothing.
    pub fn get(&mut self, bank: usize, index: usize) -> (byte: Option<u8>)
        requires
            old(self).wf(),
            index < BANK_SIZE,
        ensures
            final(self).wf(),
            final(self).limit() == old(self).limit(),
            ({
                let position = key_position(old(self)@, bank);
                if position < old(self)@.len() {
                    &&& byte == Some(old(self)@[position].1[index as int])
                    &&& final(self)@ == touched(old(self)@, position)
                } else {
                    &&& byte.is_none()
                    &&& final(self)@ == old(self)@
                }
            }),
    {
        let ghost entries = lru_entries(self.recency);
        proof {
            lemma_key_position(entries, bank);
            lemma_key_position(self@, bank);
            let position = key_position(entries, bank);
            if position < entries.len() {
                lemma_key_position_found(self@, bank, position);
            } else {
                lemma_key_position_missing(self@, bank);
            }
        }
        match lru_get(&mut self.recency, bank) {
            Some(slot) => {
                proof {
                    let position = key_position(entries, bank);
                    assert(entries[position].1 == slot);
                    assert(self@ =~= touched(old(self)@, position));
                }
                Some(self.banks[slot][index])
            },
            None => None,
        }
    }

    /// Stores `data` as the bytes of `bank`, which becomes the most recently
    /// used. A bank already held gets the new bytes. Else, where the cache is
    /// full, the least recently used bank leaves and its index comes back.
    pub fn insert(&mut self, bank: usize, data: Vec<u8>) -> (evicted: Option<usize>)
        requires
            old(self).wf(),
            data@.len() == BANK_SIZE,
        ensures
            final(self).wf(),
            final(self).limit() == old(self).limit(),
            final(self)@ == after_insert(old(self)@, old(self).limit(), bank, data@),
            evicted == evicted_by_insert(old(self)@, old(self).limit(), bank),
    {
        let ghost entries = lru_entries(self.recency);
        let ghost before = self@;
        proof {
            lemma_key_position(entries, bank);
            lemma_key_position(before, bank);
            let position = key_position(entries, bank);
            if position < entries.len() {
                lemma_key_position_found(before, bank, position);
            } else {
                lemma_key_position_missing(before, bank);
            }
        }
        match lru_get(&mut self.recency, bank) {
            Some(slot) => {
                self.banks.set(slot, data);
                proof {
                    let position = key_position(entries, bank);
                    assert(entries[position].1 == slot);
                    assert(self@ =~= seq![(bank, data@)] + before.remove(position));
                }
                None
            },
            None => {
                if lru_len(&self.recency) == self.capacity {
                    let keys = lru_keys(&self.recency);
                    let victim = keys[keys.len() - 1];
                    let ghost last = entries.len() - 1;
                    proof {
                        assert(victim == entries[last].0);
                        assert(before[last].0 == victim);
                        assert forall|q: int| 0 <= q < last implies entries[q].0 != victim by {
                            assert(before[q].0 == entries[q].0);
                        }
                        lemma_key_position_found(entries, victim, last);
                    }
                    match lru_remove(&mut self.recency, victim) {
                        Some(slot) => {
                            let ghost kept = entries.remove(last);
                            proof {
                                assert(kept =~= entries.drop_last());
                                assert forall|q: int| 0 <= q < kept.len() implies kept[q].0 != bank by {
                                    assert(kept[q] == entries[q]);
                                }
                                lemma_key_position_missing(kept, bank);
                            }
                            lru_insert(&mut self.recency, bank, slot);
                            self.banks.set(slot, data);
                            proof {
                                let after = lru_entries(self.recency);
                                assert(after =~= seq![(bank, slot)] + kept);
                                assert forall|p: int| 0 < p < after.len() implies after[p] == entries[p - 1] by {
                                    assert(after[p] == kept[p - 1]);
                                }
                                assert(self@ =~= seq![(bank, data@)] + before.drop_last());
                            }
                            Some(victim)
                        },
                        None => None,
                    }
                } else {
                    let slot = self.banks.len();
                    self.banks.push(data);
                    lru_insert(&mut self.recency, bank, slot);
                    proof {
                        let after = lru_entries(self.recency);
                        assert(after =~= seq![(bank, slot)] + entries);
                        assert forall|p: int| 0 < p < after.len() implies after[p] == entries[p - 1] by {
                            assert(after[p] == (seq![(bank, slot)] + entries)[p]);
                        }
                        assert(self@ =~= seq![(bank, data@)] + before);
                    }
                    None
                }
            },
        }
    }
}

/// The cache after `bank` has been stored with the bytes `data`: the bank
/// stands first; had it been held, its old pair is gone; else, had the cache
/// been full, the last pair is gone.
pub open spec fn after_insert(
    cache: Seq<(usize, Seq<u8>)>,
    limit: int,
    bank: usize,
    data: Seq<u8>,
) -> Seq<(usize, Seq<u8>)> {
    let position = key_position(cache, bank);
    if position < cache.len() {
        seq![(bank, data)] + cache.remove(position)
    } else if cache.len() >= limit {
        seq![(bank, data)] + cache.drop_last()
    } else {
        seq![(bank, data)] + cache
    }
}

/// The bank that leaves the cache when `bank` is stored, if one does.
pub open spec fn evicted_by_insert(cache: Seq<(usize, Seq<u8>)>, limit: int, bank: usize) -> Option<
    usize,
> {
    if key_position(cache, bank) >= cache.len() && cache.len() >= limit {
        Some(cache.last().0)
    } else {
        None
    }
}

} // verus!
