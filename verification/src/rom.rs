//! The cartridge store: a ROM of many banks behind a resident first bank and a
//! small cache for the others.

use crate::cache::{
    after_insert, distinct_keys, evicted_by_insert, key_position, lemma_key_position,
    lemma_key_position_found, lemma_key_position_missing, touched, BankCache, BANK_SIZE, MAX_BANKS,
};
use vstd::prelude::*;

verus! {

/// The bytes of bank `bank` in the ROM image `image`.
pub open spec fn bank_bytes(image: Seq<u8>, bank: int) -> Seq<u8> {
    image.subrange(bank * BANK_SIZE as int, (bank + 1) * BANK_SIZE as int)
}

/// The cache after a read of `bank`, whose bytes are `data`: a bank that is
/// held moves to the front; one that is not is stored.
pub open spec fn after_read(
    cache: Seq<(usize, Seq<u8>)>,
    limit: int,
    bank: usize,
    data: Seq<u8>,
) -> Seq<(usize, Seq<u8>)> {
    let position = key_position(cache, bank);
    if position < cache.len() {
        touched(cache, position)
    } else {
        after_insert(cache, limit, bank, data)
    }
}

/// Copies one bank out of a ROM image.
pub fn copy_bank(image: &[u8], bank: usize) -> (data: Vec<u8>)
    requires
        (bank + 1) * BANK_SIZE <= image@.len(),
    ensures
        data@ == bank_bytes(image@, bank as int),
{
    let size: usize = image.len();
    proof {
        assert(bank * BANK_SIZE + BANK_SIZE == (bank + 1) * BANK_SIZE) by (nonlinear_arith);
        assert(bank * BANK_SIZE <= size);
    }
    let start: usize = bank * BANK_SIZE;
    let mut data: Vec<u8> = Vec::with_capacity(BANK_SIZE);
    let mut i: usize = 0;
    while i < BANK_SIZE
        invariant
            i <= BANK_SIZE,
            start == bank * BANK_SIZE,
            start + BANK_SIZE <= image@.len(),
            data@ == image@.subrange(start as int, start + i),
        decreases BANK_SIZE - i,
    {
        data.push(image[start + i]);
        proof {
            assert(data@ =~= image@.subrange(start as int, start + i + 1));
        }
        i += 1;
    }
    data
}

/// A ROM of many banks. Bank 0 is always at hand; the other banks are held in
/// a cache and have to be brought in when they are missing.
pub struct BankedRomStore {
    bank_0: Vec<u8>,
    cache: BankCache,
}

impl BankedRomStore {
    /// The bytes of bank 0.
    pub closed spec fn resident(&self) -> Seq<u8> {
        self.bank_0@
    }

    /// The cached banks with their bytes, the most recently used first.
    pub closed spec fn cached(&self) -> Seq<(usize, Seq<u8>)> {
        self.cache@
    }

    /// The number of banks that the cache may hold.
    pub closed spec fn limit(&self) -> int {
        self.cache.limit()
    }

    /// Bank 0 is whole and the cache is in order.
    pub closed spec fn wf(&self) -> bool {
        &&& self.bank_0@.len() == BANK_SIZE
        &&& self.cache.wf()
    }

    /// Every bank that the store holds has the bytes that `image` has for it.
    pub open spec fn backed_by(&self, image: Seq<u8>) -> bool {
        &&& BANK_SIZE <= image.len()
        &&& self.resident() == bank_bytes(image, 0)
        &&& forall|p: int|
            0 <= p < self.cached().len() ==> {
                &&& ((#[trigger] self.cached()[p]).0 + 1) * BANK_SIZE <= image.len()
                &&& self.cached()[p].1 == bank_bytes(image, self.cached()[p].0 as int)
            }
    }

    /// A store with `bank_0` at hand and an empty cache for `capacity` banks.
    pub fn new(bank_0: Vec<u8>, capacity: usize) -> (store: Self)
        requires
            bank_0@.len() == BANK_SIZE,
            1 <= capacity <= MAX_BANKS,
        ensures
            store.wf(),
            store.resident() == bank_0@,
            store.cached().len() == 0,
            store.limit() == capacity,
    {
        BankedRomStore { bank_0, cache: BankCache::new(capacity) }
    }

    /// The banks in the cache, the most recently used first.
    pub fn cached_banks(&self) -> (banks: Vec<usize>)
        ensures
            banks@ == crate::cache::keys_of(self.cached()),
    {
        self.cache.cached_banks()
    }

    /// The byte at `offset` of bank `bank_index`, if the store holds the bank.
    /// Bank 0 is answered without a look at the cache. A cached bank becomes
    /// the most recently used. `None` says that the bank has to be brought in,
    /// and leaves the store as it was.
    pub fn read_cached(&mut self, bank_index: usize, offset: usize) -> (byte: Option<u8>)
        requires
            old(self).wf(),
            offset < BANK_SIZE,
        ensures
            final(self).wf(),
            final(self).limit() == old(self).limit(),
            final(self).resident() == old(self).resident(),
            bank_index == 0 ==> {
                &&& byte == Some(old(self).resident()[offset as int])
                &&& final(self).cached() == old(self).cached()
            },
            bank_index != 0 ==> ({
                let position = key_position(old(self).cached(), bank_index);
                if position < old(self).cached().len() {
                    &&& byte == Some(old(self).cached()[position].1[offset as int])
                    &&& final(self).cached() == touched(old(self).cached(), position)
                } else {
                    &&& byte.is_none()
                    &&& final(self).cached() == old(self).cached()
                }
            }),
    {
        if bank_index == 0 {
            Some(self.bank_0[offset])
        } else {
            self.cache.get(bank_index, offset)
        }
    }

    /// Takes in the bytes of a bank that was missing. The bank becomes the
    /// most recently used; where the cache was full, the least recently used
    /// bank leaves, and its index comes back.
    pub fn install(&mut self, bank_index: usize, data: Vec<u8>) -> (evicted: Option<usize>)
        requires
            old(self).wf(),
            data@.len() == BANK_SIZE,
        ensures
            final(self).wf(),
            final(self).limit() == old(self).limit(),
            final(self).resident() == old(self).resident(),
            final(self).cached() == after_insert(
                old(self).cached(),
                old(self).limit(),
                bank_index,
                data@,
            ),
            evicted == evicted_by_insert(old(self).cached(), old(self).limit(), bank_index),
    {
        self.cache.insert(bank_index, data)
    }

    /// The byte at `offset` of bank `bank_index` of the ROM `image`, read
    /// through the store: from bank 0 or the cache where the bank is held,
    /// and else from `image`, from which the whole bank is taken in first.
    pub fn read_byte(&mut self, image: &[u8], bank_index: usize, offset: usize) -> (byte: u8)
        requires
            old(self).wf(),
            old(self).backed_by(image@),
            (bank_index + 1) * BANK_SIZE <= image@.len(),
            offset < BANK_SIZE,
        ensures
            byte == image@[bank_index * BANK_SIZE + offset],
            final(self).wf(),
            final(self).backed_by(image@),
            final(self).limit() == old(self).limit(),
            final(self).resident() == old(self).resident(),
            final(self).cached() == if bank_index == 0 {
                old(self).cached()
            } else {
                after_read(
                    old(self).cached(),
                    old(self).limit(),
                    bank_index,
                    bank_bytes(image@, bank_index as int),
                )
            },
    {
        let ghost before = self.cached();
        proof {
            crate::cache::lemma_key_position(before, bank_index);
        }
        match self.read_cached(bank_index, offset) {
            Some(byte) => {
                proof {
                    if bank_index != 0 {
                        let position = key_position(before, bank_index);
                        assert(before[position].1 == bank_bytes(image@, bank_index as int));
                        assert forall|p: int| 0 <= p < self.cached().len() implies {
                            &&& ((#[trigger] self.cached()[p]).0 + 1) * BANK_SIZE <= image@.len()
                            &&& self.cached()[p].1 == bank_bytes(
                                image@,
                                self.cached()[p].0 as int,
                            )
                        } by {
                            if p == 0 {
                                assert(self.cached()[p] == before[position]);
                            } else if p <= position {
                                assert(self.cached()[p] == before[p - 1]);
                            } else {
                                assert(self.cached()[p] == before[p]);
                            }
                        }
                    }
                }
                byte
            },
            None => {
                let data = copy_bank(image, bank_index);
                let byte = data[offset];
                self.install(bank_index, data);
                proof {
                    assert forall|p: int| 0 <= p < self.cached().len() implies {
                        &&& ((#[trigger] self.cached()[p]).0 + 1) * BANK_SIZE <= image@.len()
                        &&& self.cached()[p].1 == bank_bytes(image@, self.cached()[p].0 as int)
                    } by {
                        if p > 0 {
                            assert(self.cached()[p] == before[p - 1]);
                        }
                    }
                }
                byte
            },
        }
    }
}

/// The cache of a store that started empty, after the banks `accesses` have
/// been read from `image` one after the other.
pub open spec fn cache_after_reads(image: Seq<u8>, limit: int, accesses: Seq<usize>) -> Seq<
    (usize, Seq<u8>),
>
    decreases accesses.len(),
{
    if accesses.len() == 0 {
        Seq::empty()
    } else {
        after_read(
            cache_after_reads(image, limit, accesses.drop_last()),
            limit,
            accesses.last(),
            bank_bytes(image, accesses.last() as int),
        )
    }
}

/// Every bank that occurs in `accesses`, once, with its bytes in `image`: the
/// bank read last comes first, then the one that was read last before it, and
/// so on.
pub open spec fn recent_reads(image: Seq<u8>, accesses: Seq<usize>) -> Seq<(usize, Seq<u8>)>
    decreases accesses.len(),
{
    if accesses.len() == 0 {
        Seq::empty()
    } else {
        let earlier = recent_reads(image, accesses.drop_last());
        let bank = accesses.last();
        let position = key_position(earlier, bank);
        let first = seq![(bank, bank_bytes(image, bank as int))];
        if position < earlier.len() {
            first + earlier.remove(position)
        } else {
            first + earlier
        }
    }
}

/// The list of recent reads names no bank twice and gives each bank the bytes
/// that the image has for it.
pub proof fn lemma_recent_reads_distinct(image: Seq<u8>, accesses: Seq<usize>)
    ensures
        distinct_keys(recent_reads(image, accesses)),
        forall|p: int|
            0 <= p < recent_reads(image, accesses).len() ==> (#[trigger] recent_reads(
                image,
                accesses,
            )[p]).1 == bank_bytes(image, recent_reads(image, accesses)[p].0 as int),
    decreases accesses.len(),
{
    if accesses.len() > 0 {
        let earlier = recent_reads(image, accesses.drop_last());
        let bank = accesses.last();
        let position = key_position(earlier, bank);
        let now = recent_reads(image, accesses);
        lemma_recent_reads_distinct(image, accesses.drop_last());
        lemma_key_position(earlier, bank);
        assert forall|i: int, j: int| 0 <= i < j < now.len() implies now[i].0 != now[j].0 by {
            if position < earlier.len() {
                let a = if i - 1 < position {
                    i - 1
                } else {
                    i
                };
                let b = if j - 1 < position {
                    j - 1
                } else {
                    j
                };
                assert(now[j] == earlier[b]);
                if i > 0 {
                    assert(now[i] == earlier[a]);
                }
            } else {
                assert(now[j] == earlier[j - 1]);
                if i > 0 {
                    assert(now[i] == earlier[i - 1]);
                }
            }
        }
        assert forall|p: int| 0 <= p < now.len() implies (#[trigger] now[p]).1 == bank_bytes(
            image,
            now[p].0 as int,
        ) by {
            if p > 0 {
                if position < earlier.len() {
                    let a = if p - 1 < position {
                        p - 1
                    } else {
                        p
                    };
                    assert(now[p] == earlier[a]);
                } else {
                    assert(now[p] == earlier[p - 1]);
                }
            }
        }
    }
}

/// The number of banks in a cache after the reads `accesses`: all the banks
/// read, or as many as the cache may hold.
pub open spec fn cached_count(image: Seq<u8>, limit: int, accesses: Seq<usize>) -> int {
    if recent_reads(image, accesses).len() <= limit {
        recent_reads(image, accesses).len() as int
    } else {
        limit
    }
}

/// After any run of reads a cache that started empty holds exactly the banks
/// read most recently, as many of them as it may hold, the most recent first.
pub proof fn lemma_cache_holds_most_recent(image: Seq<u8>, limit: int, accesses: Seq<usize>)
    requires
        1 <= limit,
    ensures
        cache_after_reads(image, limit, accesses) == recent_reads(image, accesses).take(
            cached_count(image, limit, accesses),
        ),
    decreases accesses.len(),
{
    if accesses.len() == 0 {
        assert(recent_reads(image, accesses).take(0) =~= Seq::<(usize, Seq<u8>)>::empty());
    } else {
        let shorter = accesses.drop_last();
        let earlier = recent_reads(image, shorter);
        let count = cached_count(image, limit, shorter);
        let cache = cache_after_reads(image, limit, shorter);
        let bank = accesses.last();
        let data = bank_bytes(image, bank as int);
        let position = key_position(earlier, bank);
        let now = recent_reads(image, accesses);
        lemma_cache_holds_most_recent(image, limit, shorter);
        lemma_recent_reads_distinct(image, shorter);
        lemma_key_position(earlier, bank);
        assert(cache == earlier.take(count));
        if position < count {
            assert forall|q: int| 0 <= q < position implies cache[q].0 != bank by {
                assert(cache[q] == earlier[q]);
            }
            lemma_key_position_found(cache, bank, position);
            assert(cache[position] == (bank, data));
            assert(touched(cache, position) =~= now.take(count));
        } else {
            assert forall|q: int| 0 <= q < cache.len() implies cache[q].0 != bank by {
                assert(cache[q] == earlier[q]);
            }
            lemma_key_position_missing(cache, bank);
            if position < earlier.len() {
                assert(after_insert(cache, limit, bank, data) =~= now.take(limit));
            } else if earlier.len() >= limit {
                assert(after_insert(cache, limit, bank, data) =~= now.take(limit));
            } else {
                assert(after_insert(cache, limit, bank, data) =~= now.take(earlier.len() as int + 1));
            }
        }
    }
}

} // verus!
