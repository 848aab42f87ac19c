//! In-memory key/value store with expiration, memory-bounded LRU eviction,
//! and compare-and-swap.
//!
//! Time is an explicit argument: every operation has an `..._at` form that
//! takes the current instant in seconds, with an exact contract, and a
//! convenience form under the original name that reads the system clock and
//! delegates. An item whose expiration instant has passed is indistinguishable
//! from an absent one, and is removed by the operation that observes it.

use vstd::prelude::*;

verus! {

/// Fixed memory overhead attributed to each stored item, besides its key and
/// value bytes.
pub const ITEM_OVERHEAD: usize = 64;

/// A single cached item.
pub struct CacheItem {
    /// The stored value.
    pub value: Vec<u8>,
    /// Opaque 32-bit flags stored with the item and returned verbatim.
    pub flags: u32,
    /// Absolute expiration instant in seconds (`None` = never expires).
    pub expires_at: Option<u64>,
    /// CAS token for compare-and-swap operations.
    pub cas_unique: u64,
    /// Instant of the last write, in seconds.
    pub last_accessed: u64,
}

impl CacheItem {
    /// Whether the item has expired at instant `now`.
    pub open spec fn spec_expired(self, now: u64) -> bool {
        match self.expires_at {
            Some(t) => now >= t,
            None => false,
        }
    }

    /// Check expiration against an explicit instant.
    pub fn is_expired_at(&self, now: u64) -> (r: bool)
        ensures
            r == self.spec_expired(now),
    {
        match self.expires_at {
            Some(t) => now >= t,
            None => false,
        }
    }

    /// Check expiration against the system clock.
    pub fn is_expired(&self) -> (r: bool)
        ensures
            exists|now: u64| r == self.spec_expired(now),
    {
        let now = clock_seconds();
        self.is_expired_at(now)
    }

    /// Memory attributed to the item itself: its fixed overhead plus the
    /// value bytes (the key is accounted separately).
    pub fn memory_size(&self) -> (r: usize)
        requires
            ITEM_OVERHEAD + self.value@.len() <= usize::MAX,
        ensures
            r == ITEM_OVERHEAD + self.value@.len(),
    {
        ITEM_OVERHEAD + self.value.len()
    }

    /// An exact copy of the item.
    pub fn duplicate(&self) -> (r: CacheItem)
        ensures
            r.value@ == self.value@,
            r.flags == self.flags,
            r.expires_at == self.expires_at,
            r.cas_unique == self.cas_unique,
            r.last_accessed == self.last_accessed,
    {
        CacheItem {
            value: clone_bytes(&self.value),
            flags: self.flags,
            expires_at: self.expires_at,
            cas_unique: self.cas_unique,
            last_accessed: self.last_accessed,
        }
    }
}

/// Copy a byte vector.
pub fn clone_bytes(v: &Vec<u8>) -> (r: Vec<u8>)
    ensures
        r@ == v@,
{
    let mut out: Vec<u8> = Vec::with_capacity(v.len());
    let n = v.len();
    for i in 0..n
        invariant
            n == v@.len(),
            out@ == v@.take(i as int),
    {
        out.push(v[i]);
        assert(out@ =~= v@.take(i + 1));
    }
    assert(v@.take(n as int) =~= v@);
    out
}

/// Byte-string equality.
pub fn bytes_eq(a: &[u8], b: &[u8]) -> (r: bool)
    ensures
        r <==> a@ == b@,
{
    if a.len() != b.len() {
        proof {
            assert(a@ != b@);
        }
        return false;
    }
    let n = a.len();
    for i in 0..n
        invariant
            n == a@.len() == b@.len(),
            forall|j: int| 0 <= j < i ==> a@[j] == b@[j],
    {
        if a[i] != b[i] {
            return false;
        }
    }
    proof {
        assert(a@ =~= b@);
    }
    true
}

/// Result of a storage operation.
#[derive(Debug, Clone, Copy, PartialEq, Eq, Structural)]
pub enum StorageResult {
    /// Operation succeeded.
    Stored,
    /// Item was not stored (e.g. `add` on an existing key).
    NotStored,
    /// Item exists (for add/replace checks).
    Exists,
    /// Item not found.
    NotFound,
    /// CAS mismatch: the item was modified since it was fetched.
    CasMismatch,
    /// Successfully deleted.
    Deleted,
}

/// One stored entry: a key, its item, and the access-sequence number that
/// orders entries for LRU eviction.
pub struct Entry {
    /// The key bytes.
    pub key: Vec<u8>,
    /// The cached item.
    pub item: CacheItem,
    /// Access-sequence number: larger means more recently used.
    pub seq: u64,
}

/// Memory attributed to one entry: fixed overhead, key bytes, value bytes.
pub open spec fn entry_size(e: Entry) -> nat {
    (ITEM_OVERHEAD + e.key@.len() + e.item.value@.len()) as nat
}

/// Total memory attributed to a sequence of entries.
pub open spec fn mem_total(s: Seq<Entry>) -> nat
    decreases s.len(),
{
    if s.len() == 0 {
        0
    } else {
        mem_total(s.drop_last()) + entry_size(s.last())
    }
}

/// Index of the entry with key `key`, or -1 when absent.
pub open spec fn find_idx(s: Seq<Entry>, key: Seq<u8>) -> int
    decreases s.len(),
{
    if s.len() == 0 {
        -1
    } else if s.last().key@ == key {
        s.len() - 1
    } else {
        find_idx(s.drop_last(), key)
    }
}

/// `find_idx` returns a valid index bearing the key, or -1 when no entry
/// bears it.
pub proof fn lemma_find_idx(s: Seq<Entry>, key: Seq<u8>)
    ensures
        -1 <= find_idx(s, key) < s.len(),
        find_idx(s, key) >= 0 ==> s[find_idx(s, key)].key@ == key,
        find_idx(s, key) == -1 ==> forall|i: int| 0 <= i < s.len() ==> s[i].key@ != key,
        find_idx(s, key) >= 0 ==> forall|i: int|
            find_idx(s, key) < i < s.len() ==> s[i].key@ != key,
    decreases s.len(),
{
    if s.len() > 0 && s.last().key@ != key {
        lemma_find_idx(s.drop_last(), key);
        assert(forall|i: int| 0 <= i < s.len() - 1 ==> s[i] == s.drop_last()[i]);
    }
}

/// When the keys of `s` are pairwise distinct, any index bearing `key` is
/// the one `find_idx` returns.
pub proof fn lemma_find_idx_unique(s: Seq<Entry>, key: Seq<u8>, i: int)
    requires
        forall|a: int, b: int| 0 <= a < b < s.len() ==> s[a].key@ != s[b].key@,
        0 <= i < s.len(),
        s[i].key@ == key,
    ensures
        find_idx(s, key) == i,
    decreases s.len(),
{
    lemma_find_idx(s, key);
    if s.last().key@ == key {
        assert(i == s.len() - 1);
    } else {
        assert(i < s.len() - 1);
        assert(s.drop_last()[i] == s[i]);
        lemma_find_idx_unique(s.drop_last(), key, i);
    }
}

/// Removing entry `i` takes exactly its size out of the total.
pub proof fn lemma_mem_total_remove(s: Seq<Entry>, i: int)
    requires
        0 <= i < s.len(),
    ensures
        mem_total(s.remove(i)) == mem_total(s) - entry_size(s[i]),
    decreases s.len(),
{
    if i == s.len() - 1 {
        assert(s.remove(i) =~= s.drop_last());
    } else {
        assert(s.remove(i).drop_last() =~= s.drop_last().remove(i));
        assert(s.remove(i).last() == s.last());
        lemma_mem_total_remove(s.drop_last(), i);
    }
}

/// Replacing entry `i` swaps its size for the new one in the total.
pub proof fn lemma_mem_total_update(s: Seq<Entry>, i: int, e: Entry)
    requires
        0 <= i < s.len(),
    ensures
        mem_total(s.update(i, e)) == mem_total(s) - entry_size(s[i]) + entry_size(e),
    decreases s.len(),
{
    if i == s.len() - 1 {
        assert(s.update(i, e).drop_last() =~= s.drop_last());
        assert(s.update(i, e).last() == e);
    } else {
        assert(s.update(i, e).drop_last() =~= s.drop_last().update(i, e));
        assert(s.update(i, e).last() == s.last());
        lemma_mem_total_update(s.drop_last(), i, e);
    }
}

/// Appending an entry adds exactly its size to the total.
pub proof fn lemma_mem_total_push(s: Seq<Entry>, e: Entry)
    ensures
        mem_total(s.push(e)) == mem_total(s) + entry_size(e),
{
    assert(s.push(e).drop_last() =~= s);
    assert(s.push(e).last() == e);
}

/// Each entry's size is bounded by the total.
pub proof fn lemma_mem_total_bound(s: Seq<Entry>, i: int)
    requires
        0 <= i < s.len(),
    ensures
        entry_size(s[i]) <= mem_total(s),
    decreases s.len(),
{
    if i == s.len() - 1 {
    } else {
        assert(s.drop_last()[i] == s[i]);
        lemma_mem_total_bound(s.drop_last(), i);
    }
}

/// Storage statistics snapshot.
#[derive(Debug)]
pub struct StorageStats {
    /// Number of items currently stored.
    pub item_count: usize,
    /// Memory currently attributed to stored items, in bytes.
    pub memory_used: usize,
    /// Configured memory limit, in bytes.
    pub max_memory: usize,
    /// Next CAS token to be issued.
    pub cas_counter: u64,
}

/// The in-memory cache store.
pub struct Storage {
    /// The stored entries; keys are pairwise distinct.
    pub entries: Vec<Entry>,
    /// Memory attributed to the stored entries, in bytes.
    pub memory_used: usize,
    /// Configured memory limit, in bytes.
    pub max_memory: usize,
    /// Default TTL in seconds (0 = no expiration).
    pub default_ttl: u64,
    /// Next CAS token; strictly larger than every issued one.
    pub cas_counter: u64,
    /// Next access-sequence number; strictly larger than every recorded one.
    pub access_counter: u64,
}

impl Storage {
    /// Well-formedness: the memory counter equals the sum of the entries'
    /// sizes, keys are pairwise distinct, and issued CAS tokens and access
    /// sequences are pairwise distinct and below their counters.
    pub open spec fn wf(self) -> bool {
        &&& mem_total(self.entries@) == self.memory_used
        &&& forall|a: int, b: int| 0 <= a < b < self.entries@.len() ==>
                self.entries@[a].key@ != self.entries@[b].key@
        &&& forall|a: int| 0 <= a < self.entries@.len() ==>
                (#[trigger] self.entries@[a].item.cas_unique) < self.cas_counter
        &&& forall|a: int, b: int| 0 <= a < b < self.entries@.len() ==>
                self.entries@[a].item.cas_unique != self.entries@[b].item.cas_unique
        &&& forall|a: int| 0 <= a < self.entries@.len() ==>
                (#[trigger] self.entries@[a].seq) < self.access_counter
        &&& forall|a: int, b: int| 0 <= a < b < self.entries@.len() ==>
                self.entries@[a].seq != self.entries@[b].seq
    }

    /// Whether an entry with key `key` exists (live or expired).
    pub open spec fn has_key(self, key: Seq<u8>) -> bool {
        find_idx(self.entries@, key) >= 0
    }

    /// Whether a live (non-expired) entry with key `key` exists at `now`.
    pub open spec fn has_live(self, key: Seq<u8>, now: u64) -> bool {
        let i = find_idx(self.entries@, key);
        i >= 0 && !self.entries@[i].item.spec_expired(now)
    }

    /// The absolute expiration instant for a requested TTL at instant `now`:
    /// 0 means the configured default; if that is 0 too, the item never
    /// expires. Instants saturate at the end of representable time.
    pub open spec fn spec_expiry(self, ttl: u64, now: u64) -> Option<u64> {
        let effective = if ttl == 0 { self.default_ttl } else { ttl };
        if effective == 0 {
            None
        } else if now + effective > u64::MAX {
            Some(u64::MAX)
        } else {
            Some((now + effective) as u64)
        }
    }

    /// Create a new storage instance.
    pub fn new(max_memory: usize, default_ttl: u64) -> (s: Self)
        ensures
            s.wf(),
            s.entries@.len() == 0,
            s.memory_used == 0,
            s.max_memory == max_memory,
            s.default_ttl == default_ttl,
            s.cas_counter == 1,
            s.access_counter == 0,
    {
        Self {
            entries: Vec::new(),
            memory_used: 0,
            max_memory,
            default_ttl,
            cas_counter: 1,
            access_counter: 0,
        }
    }

    /// Compute the absolute expiration instant for a requested TTL.
    fn calculate_expiry(&self, ttl: u64, now: u64) -> (r: Option<u64>)
        ensures
            r == self.spec_expiry(ttl, now),
    {
        let effective = if ttl == 0 { self.default_ttl } else { ttl };
        if effective == 0 {
            None
        } else if now > u64::MAX - effective {
            Some(u64::MAX)
        } else {
            Some(now + effective)
        }
    }

    /// Find the entry bearing `key`.
    fn find_entry(&self, key: &[u8]) -> (r: Option<usize>)
        requires
            self.wf(),
        ensures
            match r {
                Some(i) => {
                    &&& i == find_idx(self.entries@, key@)
                    &&& i < self.entries@.len()
                    &&& self.entries@[i as int].key@ == key@
                },
                None => find_idx(self.entries@, key@) == -1,
            },
    {
        let n = self.entries.len();
        for i in 0..n
            invariant
                self.wf(),
                n == self.entries@.len(),
                forall|j: int| 0 <= j < i ==> self.entries@[j].key@ != key@,
        {
            if bytes_eq(self.entries[i].key.as_slice(), key) {
                proof {
                    lemma_find_idx_unique(self.entries@, key@, i as int);
                }
                return Some(i);
            }
        }
        proof {
            lemma_find_idx(self.entries@, key@);
            if find_idx(self.entries@, key@) >= 0 {
                assert(self.entries@[find_idx(self.entries@, key@)].key@ == key@);
            }
        }
        None
    }

    /// Remove entry `i` and account for the freed memory.
    fn remove_entry(&mut self, i: usize)
        requires
            old(self).wf(),
            i < old(self).entries@.len(),
        ensures
            final(self).wf(),
            final(self).entries@ == old(self).entries@.remove(i as int),
            final(self).memory_used
                == old(self).memory_used - entry_size(old(self).entries@[i as int]),
            final(self).max_memory == old(self).max_memory,
            final(self).default_ttl == old(self).default_ttl,
            final(self).cas_counter == old(self).cas_counter,
            final(self).access_counter == old(self).access_counter,
    {
        proof {
            lemma_mem_total_bound(self.entries@, i as int);
            lemma_mem_total_remove(self.entries@, i as int);
        }
        let e = self.entries.remove(i);
        let key_len = e.key.len();
        let val_len = e.item.value.len();
        proof {
            assert(entry_size(old(self).entries@[i as int])
                == ITEM_OVERHEAD + key_len + val_len);
        }
        self.memory_used = self.memory_used - (ITEM_OVERHEAD + key_len + val_len);
        proof {
            let s0 = old(self).entries@;
            let s1 = self.entries@;
            assert forall|a: int, b: int| 0 <= a < b < s1.len() implies
                s1[a].key@ != s1[b].key@
                    && s1[a].item.cas_unique != s1[b].item.cas_unique
                    && s1[a].seq != s1[b].seq by {
                let a0 = if a < i { a } else { a + 1 };
                let b0 = if b < i { b } else { b + 1 };
                assert(s1[a] == s0[a0] && s1[b] == s0[b0]);
            }
            assert forall|a: int| 0 <= a < s1.len() implies
                (#[trigger] s1[a].item.cas_unique) < self.cas_counter
                    && s1[a].seq < self.access_counter by {
                let a0 = if a < i { a } else { a + 1 };
                assert(s1[a] == s0[a0]);
                assert(s0[a0].item.cas_unique < self.cas_counter);
                assert(s0[a0].seq < self.access_counter);
            }
        }
    }

    /// What `delete_at` does: when the key is present (live or expired) its
    /// entry goes away and `Deleted` comes back; otherwise nothing changes
    /// and `NotFound` comes back.
    pub open spec fn delete_post(
        pre: Storage,
        post: Storage,
        key: Seq<u8>,
        r: StorageResult,
    ) -> bool {
        let i = find_idx(pre.entries@, key);
        &&& post.max_memory == pre.max_memory
        &&& post.default_ttl == pre.default_ttl
        &&& post.cas_counter == pre.cas_counter
        &&& post.access_counter == pre.access_counter
        &&& if i >= 0 {
            &&& r == StorageResult::Deleted
            &&& post.entries@ == pre.entries@.remove(i)
            &&& post.memory_used == pre.memory_used - entry_size(pre.entries@[i])
        } else {
            &&& r == StorageResult::NotFound
            &&& post.entries@ == pre.entries@
            &&& post.memory_used == pre.memory_used
        }
    }

    /// Delete the entry bearing `key`.
    pub fn delete(&mut self, key: &[u8]) -> (r: StorageResult)
        requires
            old(self).wf(),
        ensures
            final(self).wf(),
            Self::delete_post(*old(self), *final(self), key@, r),
    {
        match self.find_entry(key) {
            Some(i) => {
                self.remove_entry(i);
                StorageResult::Deleted
            }
            None => StorageResult::NotFound,
        }
    }

    /// What `get_at` does: a miss leaves the store unchanged; a hit on an
    /// expired entry removes it and reports a miss; a live hit returns a
    /// copy of the item and freshens the entry's access sequence.
    pub open spec fn get_post(
        pre: Storage,
        post: Storage,
        key: Seq<u8>,
        now: u64,
        r: Option<CacheItem>,
    ) -> bool {
        let i = find_idx(pre.entries@, key);
        &&& post.max_memory == pre.max_memory
        &&& post.default_ttl == pre.default_ttl
        &&& post.cas_counter == pre.cas_counter
        &&& if i == -1 {
            &&& r is None
            &&& post.entries@ == pre.entries@
            &&& post.memory_used == pre.memory_used
            &&& post.access_counter == pre.access_counter
        } else if pre.entries@[i].item.spec_expired(now) {
            &&& r is None
            &&& post.entries@ == pre.entries@.remove(i)
            &&& post.memory_used == pre.memory_used - entry_size(pre.entries@[i])
            &&& post.access_counter == pre.access_counter
        } else {
            &&& match r {
                Some(it) => {
                    &&& it.value@ == pre.entries@[i].item.value@
                    &&& it.flags == pre.entries@[i].item.flags
                    &&& it.expires_at == pre.entries@[i].item.expires_at
                    &&& it.cas_unique == pre.entries@[i].item.cas_unique
                    &&& it.last_accessed == pre.entries@[i].item.last_accessed
                },
                None => false,
            }
            &&& post.entries@.len() == pre.entries@.len()
            &&& forall|j: int| 0 <= j < pre.entries@.len() && j != i ==>
                    post.entries@[j] == pre.entries@[j]
            &&& post.entries@[i].key == pre.entries@[i].key
            &&& post.entries@[i].item == pre.entries@[i].item
            &&& post.entries@[i].seq == pre.access_counter
            &&& post.memory_used == pre.memory_used
            &&& post.access_counter == pre.access_counter + 1
        }
    }

    /// Get a copy of the item stored under `key`, judging expiration at the
    /// explicit instant `now`.
    pub fn get_at(&mut self, key: &[u8], now: u64) -> (r: Option<CacheItem>)
        requires
            old(self).wf(),
            old(self).access_counter < u64::MAX,
        ensures
            final(self).wf(),
            Self::get_post(*old(self), *final(self), key@, now, r),
    {
        match self.find_entry(key) {
            Some(i) => {
                if self.entries[i].item.is_expired_at(now) {
                    self.remove_entry(i);
                    None
                } else {
                    let item = self.entries[i].item.duplicate();
                    let seq = self.access_counter;
                    self.access_counter = self.access_counter + 1;
                    self.entries[i].seq = seq;
                    proof {
                        let s0 = old(self).entries@;
                        let s1 = self.entries@;
                        assert(s1 =~= s0.update(i as int, s1[i as int]));
                        lemma_mem_total_update(s0, i as int, s1[i as int]);
                    }
                    Some(item)
                }
            }
            None => None,
        }
    }

    /// Get a copy of the item stored under `key`, judging expiration by the
    /// system clock.
    pub fn get(&mut self, key: &[u8]) -> (r: Option<CacheItem>)
        requires
            old(self).wf(),
            old(self).access_counter < u64::MAX,
        ensures
            final(self).wf(),
            exists|now: u64| Self::get_post(*old(self), *final(self), key@, now, r),
    {
        let now = clock_seconds();
        self.get_at(key, now)
    }

    /// Drop all items and reset the memory counter. The CAS counter is not
    /// reset.
    pub fn flush_all(&mut self)
        requires
            old(self).wf(),
        ensures
            final(self).wf(),
            final(self).entries@.len() == 0,
            final(self).memory_used == 0,
            final(self).max_memory == old(self).max_memory,
            final(self).default_ttl == old(self).default_ttl,
            final(self).cas_counter == old(self).cas_counter,
            final(self).access_counter == old(self).access_counter,
    {
        self.entries.clear();
        self.memory_used = 0;
    }

    /// A snapshot of the store's statistics.
    pub fn stats(&self) -> (r: StorageStats)
        requires
            self.wf(),
        ensures
            r.item_count == self.entries@.len(),
            r.memory_used == self.memory_used,
            r.memory_used == mem_total(self.entries@),
            r.max_memory == self.max_memory,
            r.cas_counter == self.cas_counter,
    {
        StorageStats {
            item_count: self.entries.len(),
            memory_used: self.memory_used,
            max_memory: self.max_memory,
            cas_counter: self.cas_counter,
        }
    }
}


/// Index of the live (non-expired) entry with the smallest access sequence,
/// or -1 when no entry is live.
pub open spec fn min_live_idx(s: Seq<Entry>, now: u64) -> int
    decreases s.len(),
{
    if s.len() == 0 {
        -1
    } else {
        let r = min_live_idx(s.drop_last(), now);
        if s.last().item.spec_expired(now) {
            r
        } else if r == -1 {
            s.len() - 1
        } else if s.last().seq < s[r].seq {
            s.len() - 1
        } else {
            r
        }
    }
}

/// `min_live_idx` names a live entry of minimal access sequence, or -1 when
/// every entry has expired.
pub proof fn lemma_min_live_idx(s: Seq<Entry>, now: u64)
    ensures
        -1 <= min_live_idx(s, now) < s.len(),
        min_live_idx(s, now) >= 0 ==> !s[min_live_idx(s, now)].item.spec_expired(now),
        min_live_idx(s, now) >= 0 ==> forall|i: int|
            0 <= i < s.len() && !(#[trigger] s[i]).item.spec_expired(now)
                ==> s[min_live_idx(s, now)].seq <= s[i].seq,
        min_live_idx(s, now) == -1 ==> forall|i: int|
            0 <= i < s.len() ==> (#[trigger] s[i]).item.spec_expired(now),
    decreases s.len(),
{
    if s.len() > 0 {
        lemma_min_live_idx(s.drop_last(), now);
        assert(forall|i: int| 0 <= i < s.len() - 1 ==> s[i] == s.drop_last()[i]);
    }
}

/// The victim of one eviction step: the least-recently-used live entry, or
/// the first entry when every entry has expired.
pub open spec fn victim_idx(s: Seq<Entry>, now: u64) -> int {
    if min_live_idx(s, now) >= 0 {
        min_live_idx(s, now)
    } else {
        0
    }
}

/// The entries left after evicting least-recently-used entries until
/// `needed` more bytes fit under `max`, or nothing remains.
pub open spec fn spec_evict(s: Seq<Entry>, max: nat, needed: nat, now: u64) -> Seq<Entry>
    decreases s.len(),
{
    if mem_total(s) + needed <= max || s.len() == 0 {
        s
    } else if 0 <= victim_idx(s, now) < s.len() {
        spec_evict(s.remove(victim_idx(s, now)), max, needed, now)
    } else {
        s
    }
}

impl Storage {
    /// The entry the next eviction would remove.
    fn find_lru_victim(&self, now: u64) -> (r: Option<usize>)
        requires
            self.wf(),
        ensures
            match r {
                Some(v) => {
                    &&& self.entries@.len() > 0
                    &&& v < self.entries@.len()
                    &&& v == victim_idx(self.entries@, now)
                },
                None => self.entries@.len() == 0,
            },
    {
        let n = self.entries.len();
        if n == 0 {
            return None;
        }
        let mut best: Option<usize> = None;
        for i in 0..n
            invariant
                self.wf(),
                n == self.entries@.len(),
                match best {
                    Some(b) => b < i && b == min_live_idx(self.entries@.take(i as int), now),
                    None => min_live_idx(self.entries@.take(i as int), now) == -1,
                },
        {
            proof {
                assert(self.entries@.take(i + 1).drop_last() =~= self.entries@.take(i as int));
                assert(self.entries@.take(i + 1).last() == self.entries@[i as int]);
                lemma_min_live_idx(self.entries@.take(i as int), now);
                assert(forall|j: int| 0 <= j < i ==>
                    self.entries@.take(i + 1)[j] == self.entries@[j]);
                assert(forall|j: int| 0 <= j < i ==>
                    self.entries@.take(i as int)[j] == self.entries@[j]);
            }
            if !self.entries[i].item.is_expired_at(now) {
                match best {
                    None => {
                        best = Some(i);
                    }
                    Some(b) => {
                        if self.entries[i].seq < self.entries[b].seq {
                            best = Some(i);
                        }
                    }
                }
            }
        }
        proof {
            assert(self.entries@.take(n as int) =~= self.entries@);
        }
        match best {
            Some(b) => Some(b),
            None => Some(0),
        }
    }

    /// Evict least-recently-used entries until `needed` more bytes fit under
    /// the memory limit, or nothing remains to evict.
    fn ensure_memory_available(&mut self, needed: usize, now: u64)
        requires
            old(self).wf(),
        ensures
            final(self).wf(),
            final(self).entries@ == spec_evict(
                old(self).entries@,
                old(self).max_memory as nat,
                needed as nat,
                now,
            ),
            final(self).memory_used == mem_total(final(self).entries@),
            final(self).max_memory == old(self).max_memory,
            final(self).default_ttl == old(self).default_ttl,
            final(self).cas_counter == old(self).cas_counter,
            final(self).access_counter == old(self).access_counter,
            final(self).memory_used + needed <= final(self).max_memory
                || final(self).entries@.len() == 0,
    {
        let ghost orig = self.entries@;
        let ghost max_g = old(self).max_memory as nat;
        let ghost needed_g = needed as nat;
        while self.entries.len() > 0
            && (needed > self.max_memory || self.memory_used > self.max_memory - needed)
            invariant
                self.wf(),
                self.max_memory == old(self).max_memory,
                self.default_ttl == old(self).default_ttl,
                self.cas_counter == old(self).cas_counter,
                self.access_counter == old(self).access_counter,
                max_g == self.max_memory as nat,
                needed_g == needed as nat,
                spec_evict(self.entries@, max_g, needed_g, now)
                    == spec_evict(orig, max_g, needed_g, now),
            decreases self.entries@.len(),
        {
            let ghost pre = self.entries@;
            proof {
                assert(mem_total(pre) + needed_g > max_g);
                lemma_min_live_idx(pre, now);
            }
            let v = match self.find_lru_victim(now) {
                Some(v) => v,
                None => {
                    proof {
                        assert(false);
                    }
                    0
                }
            };
            self.remove_entry(v);
            proof {
                assert(spec_evict(pre, max_g, needed_g, now)
                    == spec_evict(pre.remove(v as int), max_g, needed_g, now));
            }
        }
        proof {
            assert(spec_evict(self.entries@, max_g, needed_g, now) == self.entries@);
        }
    }

    /// Fields of a freshly written item.
    pub open spec fn new_item_ok(
        it: CacheItem,
        value: Seq<u8>,
        flags: u32,
        expiry: Option<u64>,
        cas: u64,
        now: u64,
    ) -> bool {
        &&& it.value@ == value
        &&& it.flags == flags
        &&& it.expires_at == expiry
        &&& it.cas_unique == cas
        &&& it.last_accessed == now
    }

    /// What `set_at` does: after LRU eviction makes room for the new entry,
    /// the key's entry (replaced in place, or appended when absent) holds
    /// the new value with a fresh CAS token and a fresh access sequence.
    pub open spec fn set_post(
        pre: Storage,
        post: Storage,
        key: Seq<u8>,
        value: Seq<u8>,
        flags: u32,
        ttl: u64,
        now: u64,
        r: StorageResult,
    ) -> bool {
        let needed = (ITEM_OVERHEAD + key.len() + value.len()) as nat;
        let mid = spec_evict(pre.entries@, pre.max_memory as nat, needed, now);
        let i = find_idx(mid, key);
        &&& r == StorageResult::Stored
        &&& post.max_memory == pre.max_memory
        &&& post.default_ttl == pre.default_ttl
        &&& post.cas_counter == pre.cas_counter + 1
        &&& post.access_counter == pre.access_counter + 1
        &&& post.memory_used == mem_total(post.entries@)
        &&& if i >= 0 {
            &&& post.entries@.len() == mid.len()
            &&& forall|j: int| 0 <= j < mid.len() && j != i ==> post.entries@[j] == mid[j]
            &&& post.entries@[i].key@ == key
            &&& Self::new_item_ok(
                    post.entries@[i].item, value, flags,
                    pre.spec_expiry(ttl, now), pre.cas_counter, now,
                )
            &&& post.entries@[i].seq == pre.access_counter
        } else {
            &&& post.entries@.len() == mid.len() + 1
            &&& forall|j: int| 0 <= j < mid.len() ==> post.entries@[j] == mid[j]
            &&& post.entries@.last().key@ == key
            &&& Self::new_item_ok(
                    post.entries@.last().item, value, flags,
                    pre.spec_expiry(ttl, now), pre.cas_counter, now,
                )
            &&& post.entries@.last().seq == pre.access_counter
        }
    }

    /// Insert or replace the item under `key`, judging expiration and TTLs
    /// at the explicit instant `now`. Always stores.
    pub fn set_at(
        &mut self,
        key: &[u8],
        value: Vec<u8>,
        flags: u32,
        ttl: u64,
        now: u64,
    ) -> (r: StorageResult)
        requires
            old(self).wf(),
            old(self).cas_counter < u64::MAX,
            old(self).access_counter < u64::MAX,
            ITEM_OVERHEAD + key@.len() + value@.len() <= usize::MAX,
        ensures
            final(self).wf(),
            Self::set_post(*old(self), *final(self), key@, value@, flags, ttl, now, r),
    {
        let needed = ITEM_OVERHEAD + key.len() + value.len();
        self.ensure_memory_available(needed, now);
        let ghost mid = self.entries@;
        let expires_at = self.calculate_expiry(ttl, now);
        let cas = self.cas_counter;
        self.cas_counter = self.cas_counter + 1;
        let seq = self.access_counter;
        self.access_counter = self.access_counter + 1;
        let item = CacheItem { value, flags, expires_at, cas_unique: cas, last_accessed: now };
        match self.find_entry(key) {
            Some(i) => {
                proof {
                    lemma_mem_total_bound(mid, i as int);
                }
                let old_key_len = self.entries[i].key.len();
                let old_val_len = self.entries[i].item.value.len();
                self.memory_used = self.memory_used - (ITEM_OVERHEAD + old_key_len + old_val_len);
                self.memory_used = self.memory_used + needed;
                self.entries[i].item = item;
                self.entries[i].seq = seq;
                proof {
                    assert(self.entries@ =~= mid.update(i as int, self.entries@[i as int]));
                    lemma_mem_total_update(mid, i as int, self.entries@[i as int]);
                    let s1 = self.entries@;
                    assert forall|a: int, b: int| 0 <= a < b < s1.len() implies
                        s1[a].key@ != s1[b].key@
                            && s1[a].item.cas_unique != s1[b].item.cas_unique
                            && s1[a].seq != s1[b].seq by {
                        if a != i && b != i {
                            assert(s1[a] == mid[a] && s1[b] == mid[b]);
                        }
                    }
                    assert forall|a: int| 0 <= a < s1.len() implies
                        (#[trigger] s1[a].item.cas_unique) < self.cas_counter
                            && s1[a].seq < self.access_counter by {
                        if a != i {
                            assert(s1[a] == mid[a]);
                        }
                    }
                }
                StorageResult::Stored
            }
            None => {
                let key_vec = vstd::slice::slice_to_vec(key);
                self.memory_used = self.memory_used + needed;
                self.entries.push(Entry { key: key_vec, item, seq });
                proof {
                    lemma_mem_total_push(mid, self.entries@.last());
                    lemma_find_idx(mid, key@);
                    let s1 = self.entries@;
                    assert(forall|j: int| 0 <= j < mid.len() ==> s1[j] == mid[j]);
                    assert forall|a: int, b: int| 0 <= a < b < s1.len() implies
                        s1[a].key@ != s1[b].key@
                            && s1[a].item.cas_unique != s1[b].item.cas_unique
                            && s1[a].seq != s1[b].seq by {
                        if b == s1.len() - 1 {
                            assert(s1[a] == mid[a]);
                            assert(mid[a].key@ != key@);
                        } else {
                            assert(s1[a] == mid[a] && s1[b] == mid[b]);
                        }
                    }
                    assert forall|a: int| 0 <= a < s1.len() implies
                        (#[trigger] s1[a].item.cas_unique) < self.cas_counter
                            && s1[a].seq < self.access_counter by {
                        if a < s1.len() - 1 {
                            assert(s1[a] == mid[a]);
                        }
                    }
                }
                StorageResult::Stored
            }
        }
    }

    /// Insert or replace the item under `key`, judging time by the system
    /// clock. Always stores.
    pub fn set(&mut self, key: &[u8], value: Vec<u8>, flags: u32, ttl: u64) -> (r: StorageResult)
        requires
            old(self).wf(),
            old(self).cas_counter < u64::MAX,
            old(self).access_counter < u64::MAX,
            ITEM_OVERHEAD + key@.len() + value@.len() <= usize::MAX,
        ensures
            final(self).wf(),
            r == StorageResult::Stored,
            exists|now: u64|
                Self::set_post(*old(self), *final(self), key@, value@, flags, ttl, now, r),
    {
        let now = clock_seconds();
        self.set_at(key, value, flags, ttl, now)
    }
}



/// The entries of `s` that are live (not expired) at instant `now`, in
/// order.
pub open spec fn live_entries(s: Seq<Entry>, now: u64) -> Seq<Entry> {
    s.filter(|e: Entry| !e.item.spec_expired(now))
}

/// Removing an entry cannot introduce a key.
proof fn lemma_no_key_remove(s: Seq<Entry>, v: int, key: Seq<u8>)
    requires
        0 <= v < s.len(),
        find_idx(s, key) == -1,
    ensures
        find_idx(s.remove(v), key) == -1,
{
    lemma_find_idx(s, key);
    lemma_find_idx(s.remove(v), key);
    let r = find_idx(s.remove(v), key);
    if r >= 0 {
        if r < v {
            assert(s.remove(v)[r] == s[r]);
        } else {
            assert(s.remove(v)[r] == s[r + 1]);
        }
    }
}

/// Eviction cannot introduce a key.
proof fn lemma_evict_no_key(s: Seq<Entry>, max: nat, needed: nat, now: u64, key: Seq<u8>)
    requires
        find_idx(s, key) == -1,
    ensures
        find_idx(spec_evict(s, max, needed, now), key) == -1,
    decreases s.len(),
{
    if mem_total(s) + needed <= max || s.len() == 0 {
    } else if 0 <= victim_idx(s, now) < s.len() {
        lemma_no_key_remove(s, victim_idx(s, now), key);
        lemma_evict_no_key(s.remove(victim_idx(s, now)), max, needed, now, key);
    }
}

impl Storage {
    /// What `add_at` does: nothing when a live entry bears the key; the
    /// effect of `set_at` otherwise.
    pub open spec fn add_post(
        pre: Storage,
        post: Storage,
        key: Seq<u8>,
        value: Seq<u8>,
        flags: u32,
        ttl: u64,
        now: u64,
        r: StorageResult,
    ) -> bool {
        if pre.has_live(key, now) {
            &&& r == StorageResult::NotStored
            &&& post == pre
        } else {
            Self::set_post(pre, post, key, value, flags, ttl, now, r)
        }
    }

    /// Store the item only if no live entry bears `key` at instant `now`.
    pub fn add_at(
        &mut self,
        key: &[u8],
        value: Vec<u8>,
        flags: u32,
        ttl: u64,
        now: u64,
    ) -> (r: StorageResult)
        requires
            old(self).wf(),
            old(self).cas_counter < u64::MAX,
            old(self).access_counter < u64::MAX,
            ITEM_OVERHEAD + key@.len() + value@.len() <= usize::MAX,
        ensures
            final(self).wf(),
            Self::add_post(*old(self), *final(self), key@, value@, flags, ttl, now, r),
    {
        let mut live = false;
        match self.find_entry(key) {
            Some(i) => {
                if !self.entries[i].item.is_expired_at(now) {
                    live = true;
                }
            }
            None => {}
        }
        if live {
            StorageResult::NotStored
        } else {
            self.set_at(key, value, flags, ttl, now)
        }
    }

    /// Store the item only if no live entry bears `key`, judging time by the
    /// system clock.
    pub fn add(&mut self, key: &[u8], value: Vec<u8>, flags: u32, ttl: u64) -> (r: StorageResult)
        requires
            old(self).wf(),
            old(self).cas_counter < u64::MAX,
            old(self).access_counter < u64::MAX,
            ITEM_OVERHEAD + key@.len() + value@.len() <= usize::MAX,
        ensures
            final(self).wf(),
            exists|now: u64|
                Self::add_post(*old(self), *final(self), key@, value@, flags, ttl, now, r),
    {
        let now = clock_seconds();
        self.add_at(key, value, flags, ttl, now)
    }

    /// What `replace_at` does: the effect of `set_at` when a live entry
    /// bears the key; nothing otherwise.
    pub open spec fn replace_post(
        pre: Storage,
        post: Storage,
        key: Seq<u8>,
        value: Seq<u8>,
        flags: u32,
        ttl: u64,
        now: u64,
        r: StorageResult,
    ) -> bool {
        if pre.has_live(key, now) {
            Self::set_post(pre, post, key, value, flags, ttl, now, r)
        } else {
            &&& r == StorageResult::NotStored
            &&& post == pre
        }
    }

    /// Store the item only if a live entry bears `key` at instant `now`.
    pub fn replace_at(
        &mut self,
        key: &[u8],
        value: Vec<u8>,
        flags: u32,
        ttl: u64,
        now: u64,
    ) -> (r: StorageResult)
        requires
            old(self).wf(),
            old(self).cas_counter < u64::MAX,
            old(self).access_counter < u64::MAX,
            ITEM_OVERHEAD + key@.len() + value@.len() <= usize::MAX,
        ensures
            final(self).wf(),
            Self::replace_post(*old(self), *final(self), key@, value@, flags, ttl, now, r),
    {
        let mut live = false;
        match self.find_entry(key) {
            Some(i) => {
                if !self.entries[i].item.is_expired_at(now) {
                    live = true;
                }
            }
            None => {}
        }
        if live {
            self.set_at(key, value, flags, ttl, now)
        } else {
            StorageResult::NotStored
        }
    }

    /// Store the item only if a live entry bears `key`, judging time by the
    /// system clock.
    pub fn replace(&mut self, key: &[u8], value: Vec<u8>, flags: u32, ttl: u64) -> (r: StorageResult)
        requires
            old(self).wf(),
            old(self).cas_counter < u64::MAX,
            old(self).access_counter < u64::MAX,
            ITEM_OVERHEAD + key@.len() + value@.len() <= usize::MAX,
        ensures
            final(self).wf(),
            exists|now: u64|
                Self::replace_post(*old(self), *final(self), key@, value@, flags, ttl, now, r),
    {
        let now = clock_seconds();
        self.replace_at(key, value, flags, ttl, now)
    }

    /// What `cas_at` does: `NotFound` when the key is absent (an expired
    /// entry is removed and counts as absent); `CasMismatch` when the token
    /// differs; otherwise the old entry goes away, eviction makes room, and
    /// a fresh entry with the new value is appended.
    pub open spec fn cas_post(
        pre: Storage,
        post: Storage,
        key: Seq<u8>,
        value: Seq<u8>,
        flags: u32,
        ttl: u64,
        cas_unique: u64,
        now: u64,
        r: StorageResult,
    ) -> bool {
        let i = find_idx(pre.entries@, key);
        let needed = (ITEM_OVERHEAD + key.len() + value.len()) as nat;
        if i == -1 {
            &&& r == StorageResult::NotFound
            &&& post == pre
        } else if pre.entries@[i].item.spec_expired(now) {
            &&& r == StorageResult::NotFound
            &&& post.entries@ == pre.entries@.remove(i)
            &&& post.memory_used == pre.memory_used - entry_size(pre.entries@[i])
            &&& post.max_memory == pre.max_memory
            &&& post.default_ttl == pre.default_ttl
            &&& post.cas_counter == pre.cas_counter
            &&& post.access_counter == pre.access_counter
        } else if pre.entries@[i].item.cas_unique != cas_unique {
            &&& r == StorageResult::CasMismatch
            &&& post == pre
        } else {
            let mid = spec_evict(
                pre.entries@.remove(i), pre.max_memory as nat, needed, now,
            );
            &&& r == StorageResult::Stored
            &&& post.entries@.len() == mid.len() + 1
            &&& forall|j: int| 0 <= j < mid.len() ==> post.entries@[j] == mid[j]
            &&& post.entries@.last().key@ == key
            &&& Self::new_item_ok(
                    post.entries@.last().item, value, flags,
                    pre.spec_expiry(ttl, now), pre.cas_counter, now,
                )
            &&& post.entries@.last().seq == pre.access_counter
            &&& post.memory_used == mem_total(post.entries@)
            &&& post.max_memory == pre.max_memory
            &&& post.default_ttl == pre.default_ttl
            &&& post.cas_counter == pre.cas_counter + 1
            &&& post.access_counter == pre.access_counter + 1
        }
    }

    /// Compare-and-swap at instant `now`: replace the item under `key` only
    /// when `cas_unique` matches the stored token.
    pub fn cas_at(
        &mut self,
        key: &[u8],
        value: Vec<u8>,
        flags: u32,
        ttl: u64,
        cas_unique: u64,
        now: u64,
    ) -> (r: StorageResult)
        requires
            old(self).wf(),
            old(self).cas_counter < u64::MAX,
            old(self).access_counter < u64::MAX,
            ITEM_OVERHEAD + key@.len() + value@.len() <= usize::MAX,
        ensures
            final(self).wf(),
            Self::cas_post(
                *old(self), *final(self), key@, value@, flags, ttl, cas_unique, now, r,
            ),
    {
        let i = match self.find_entry(key) {
            Some(i) => i,
            None => {
                return StorageResult::NotFound;
            }
        };
        if self.entries[i].item.is_expired_at(now) {
            self.remove_entry(i);
            return StorageResult::NotFound;
        }
        if self.entries[i].item.cas_unique != cas_unique {
            return StorageResult::CasMismatch;
        }
        let ghost pre = *old(self);
        self.remove_entry(i);
        let ghost removed = self.entries@;
        let needed = ITEM_OVERHEAD + key.len() + value.len();
        self.ensure_memory_available(needed, now);
        let ghost mid = self.entries@;
        proof {
            assert forall|a: int| 0 <= a < removed.len() implies
                (#[trigger] removed[a]).key@ != key@ by {
                let a0 = if a < i { a } else { a + 1 };
                assert(removed[a] == pre.entries@[a0]);
                if a0 != i && pre.entries@[a0].key@ == key@ {
                    lemma_find_idx_unique(pre.entries@, key@, a0);
                }
            }
            lemma_find_idx(removed, key@);
            if find_idx(removed, key@) >= 0 {
                assert(removed[find_idx(removed, key@)].key@ == key@);
            }
            lemma_evict_no_key(
                removed, pre.max_memory as nat, needed as nat, now, key@,
            );
            lemma_find_idx(mid, key@);
            if find_idx(mid, key@) >= 0 {
                assert(mid[find_idx(mid, key@)].key@ == key@);
            }
        }
        let expires_at = self.calculate_expiry(ttl, now);
        let cas = self.cas_counter;
        self.cas_counter = self.cas_counter + 1;
        let seq = self.access_counter;
        self.access_counter = self.access_counter + 1;
        let item = CacheItem { value, flags, expires_at, cas_unique: cas, last_accessed: now };
        let key_vec = vstd::slice::slice_to_vec(key);
        self.memory_used = self.memory_used + needed;
        self.entries.push(Entry { key: key_vec, item, seq });
        proof {
            lemma_mem_total_push(mid, self.entries@.last());
            let s1 = self.entries@;
            assert(forall|j: int| 0 <= j < mid.len() ==> s1[j] == mid[j]);
            assert forall|a: int, b: int| 0 <= a < b < s1.len() implies
                s1[a].key@ != s1[b].key@
                    && s1[a].item.cas_unique != s1[b].item.cas_unique
                    && s1[a].seq != s1[b].seq by {
                if b == s1.len() - 1 {
                    assert(s1[a] == mid[a]);
                    assert(mid[a].key@ != key@);
                } else {
                    assert(s1[a] == mid[a] && s1[b] == mid[b]);
                }
            }
            assert forall|a: int| 0 <= a < s1.len() implies
                (#[trigger] s1[a].item.cas_unique) < self.cas_counter
                    && s1[a].seq < self.access_counter by {
                if a < s1.len() - 1 {
                    assert(s1[a] == mid[a]);
                }
            }
        }
        StorageResult::Stored
    }

    /// Compare-and-swap, judging time by the system clock.
    pub fn cas(
        &mut self,
        key: &[u8],
        value: Vec<u8>,
        flags: u32,
        ttl: u64,
        cas_unique: u64,
    ) -> (r: StorageResult)
        requires
            old(self).wf(),
            old(self).cas_counter < u64::MAX,
            old(self).access_counter < u64::MAX,
            ITEM_OVERHEAD + key@.len() + value@.len() <= usize::MAX,
        ensures
            final(self).wf(),
            exists|now: u64|
                Self::cas_post(
                    *old(self), *final(self), key@, value@, flags, ttl, cas_unique, now, r,
                ),
    {
        let now = clock_seconds();
        self.cas_at(key, value, flags, ttl, cas_unique, now)
    }
}


impl Storage {
    /// The entry at `i` in `s` rewritten by extending its value with `data`
    /// (in front when `prepend`), with a fresh CAS token, a fresh access
    /// sequence, and `now` as its last write instant.
    pub open spec fn extended_entry_ok(
        e0: Entry,
        e1: Entry,
        data: Seq<u8>,
        prepend: bool,
        cas: u64,
        seq: u64,
        now: u64,
    ) -> bool {
        &&& e1.key@ == e0.key@
        &&& e1.item.value@ == (if prepend { data + e0.item.value@ } else { e0.item.value@ + data })
        &&& e1.item.flags == e0.item.flags
        &&& e1.item.expires_at == e0.item.expires_at
        &&& e1.item.cas_unique == cas
        &&& e1.item.last_accessed == now
        &&& e1.seq == seq
    }

    /// What `append_at` and `prepend_at` do: nothing without a live entry
    /// (an expired one is removed); otherwise the value grows by `data` (an
    /// over-budget growth first evicts, and is abandoned as `NotStored` when
    /// eviction consumes the key's own entry).
    pub open spec fn extend_post(
        pre: Storage,
        post: Storage,
        key: Seq<u8>,
        data: Seq<u8>,
        prepend: bool,
        now: u64,
        r: StorageResult,
    ) -> bool {
        let i = find_idx(pre.entries@, key);
        if i == -1 {
            &&& r == StorageResult::NotStored
            &&& post == pre
        } else if pre.entries@[i].item.spec_expired(now) {
            &&& r == StorageResult::NotStored
            &&& post.entries@ == pre.entries@.remove(i)
            &&& post.memory_used == pre.memory_used - entry_size(pre.entries@[i])
            &&& post.max_memory == pre.max_memory
            &&& post.default_ttl == pre.default_ttl
            &&& post.cas_counter == pre.cas_counter
            &&& post.access_counter == pre.access_counter
        } else if pre.memory_used + data.len() <= pre.max_memory {
            &&& r == StorageResult::Stored
            &&& post.entries@.len() == pre.entries@.len()
            &&& forall|j: int| 0 <= j < pre.entries@.len() && j != i ==>
                    post.entries@[j] == pre.entries@[j]
            &&& Self::extended_entry_ok(
                    pre.entries@[i], post.entries@[i], data, prepend,
                    pre.cas_counter, pre.access_counter, now,
                )
            &&& post.memory_used == pre.memory_used + data.len()
            &&& post.max_memory == pre.max_memory
            &&& post.default_ttl == pre.default_ttl
            &&& post.cas_counter == pre.cas_counter + 1
            &&& post.access_counter == pre.access_counter + 1
        } else {
            let mid = spec_evict(pre.entries@, pre.max_memory as nat, data.len(), now);
            let j = find_idx(mid, key);
            if j >= 0 && !mid[j].item.spec_expired(now) {
                &&& r == StorageResult::Stored
                &&& post.entries@.len() == mid.len()
                &&& forall|k: int| 0 <= k < mid.len() && k != j ==> post.entries@[k] == mid[k]
                &&& Self::extended_entry_ok(
                        mid[j], post.entries@[j], data, prepend,
                        pre.cas_counter, pre.access_counter, now,
                    )
                &&& post.memory_used == mem_total(mid) + data.len()
                &&& post.max_memory == pre.max_memory
                &&& post.default_ttl == pre.default_ttl
                &&& post.cas_counter == pre.cas_counter + 1
                &&& post.access_counter == pre.access_counter + 1
            } else {
                &&& r == StorageResult::NotStored
                &&& post.entries@ == mid
                &&& post.memory_used == mem_total(mid)
                &&& post.max_memory == pre.max_memory
                &&& post.default_ttl == pre.default_ttl
                &&& post.cas_counter == pre.cas_counter
                &&& post.access_counter == pre.access_counter
            }
        }
    }

    /// Extend the live entry at index `i` with `data`.
    fn extend_entry(&mut self, i: usize, data: &[u8], prepend: bool, now: u64)
        requires
            old(self).wf(),
            old(self).cas_counter < u64::MAX,
            old(self).access_counter < u64::MAX,
            i < old(self).entries@.len(),
            old(self).memory_used + data@.len() <= usize::MAX,
        ensures
            final(self).wf(),
            final(self).entries@.len() == old(self).entries@.len(),
            forall|j: int| 0 <= j < old(self).entries@.len() && j != i ==>
                final(self).entries@[j] == old(self).entries@[j],
            Self::extended_entry_ok(
                old(self).entries@[i as int], final(self).entries@[i as int], data@, prepend,
                old(self).cas_counter, old(self).access_counter, now,
            ),
            final(self).memory_used == old(self).memory_used + data@.len(),
            final(self).max_memory == old(self).max_memory,
            final(self).default_ttl == old(self).default_ttl,
            final(self).cas_counter == old(self).cas_counter + 1,
            final(self).access_counter == old(self).access_counter + 1,
    {
        proof {
            lemma_mem_total_bound(self.entries@, i as int);
        }
        if prepend {
            let mut nv = vstd::slice::slice_to_vec(data);
            nv.extend_from_slice(self.entries[i].item.value.as_slice());
            self.entries[i].item.value = nv;
        } else {
            let mut nv = clone_bytes(&self.entries[i].item.value);
            nv.extend_from_slice(data);
            self.entries[i].item.value = nv;
        }
        assert(self.entries@[i as int].item.value@ == (if prepend {
            data@ + old(self).entries@[i as int].item.value@
        } else {
            old(self).entries@[i as int].item.value@ + data@
        }));
        let cas = self.cas_counter;
        self.cas_counter = self.cas_counter + 1;
        let seq = self.access_counter;
        self.access_counter = self.access_counter + 1;
        self.entries[i].item.cas_unique = cas;
        self.entries[i].item.last_accessed = now;
        self.entries[i].seq = seq;
        self.memory_used = self.memory_used + data.len();
        proof {
            let s0 = old(self).entries@;
            let s1 = self.entries@;
            assert(s1 =~= s0.update(i as int, s1[i as int]));
            lemma_mem_total_update(s0, i as int, s1[i as int]);
            assert forall|a: int, b: int| 0 <= a < b < s1.len() implies
                s1[a].key@ != s1[b].key@
                    && s1[a].item.cas_unique != s1[b].item.cas_unique
                    && s1[a].seq != s1[b].seq by {
                if a != i && b != i {
                    assert(s1[a] == s0[a] && s1[b] == s0[b]);
                } else if a == i {
                    assert(s1[b] == s0[b]);
                } else {
                    assert(s1[a] == s0[a]);
                }
            }
            assert forall|a: int| 0 <= a < s1.len() implies
                (#[trigger] s1[a].item.cas_unique) < self.cas_counter
                    && s1[a].seq < self.access_counter by {
                if a != i {
                    assert(s1[a] == s0[a]);
                }
            }
        }
    }

    /// Append or prepend `data` to the live entry under `key` at instant
    /// `now`.
    fn extend_at(&mut self, key: &[u8], data: &[u8], prepend: bool, now: u64) -> (r: StorageResult)
        requires
            old(self).wf(),
            old(self).cas_counter < u64::MAX,
            old(self).access_counter < u64::MAX,
            old(self).memory_used + data@.len() <= usize::MAX,
        ensures
            final(self).wf(),
            Self::extend_post(*old(self), *final(self), key@, data@, prepend, now, r),
    {
        let i = match self.find_entry(key) {
            Some(i) => i,
            None => {
                return StorageResult::NotStored;
            }
        };
        if self.entries[i].item.is_expired_at(now) {
            self.remove_entry(i);
            return StorageResult::NotStored;
        }
        let additional = data.len();
        if additional > self.max_memory || self.memory_used > self.max_memory - additional {
            self.ensure_memory_available(additional, now);
            let j = match self.find_entry(key) {
                Some(j) => j,
                None => {
                    return StorageResult::NotStored;
                }
            };
            if self.entries[j].item.is_expired_at(now) {
                return StorageResult::NotStored;
            }
            proof {
                assert(self.memory_used + additional <= self.max_memory
                    || self.entries@.len() == 0);
            }
            self.extend_entry(j, data, prepend, now);
            StorageResult::Stored
        } else {
            self.extend_entry(i, data, prepend, now);
            StorageResult::Stored
        }
    }

    /// Append `data` to the live entry under `key` at instant `now`.
    pub fn append_at(&mut self, key: &[u8], data: &[u8], now: u64) -> (r: StorageResult)
        requires
            old(self).wf(),
            old(self).cas_counter < u64::MAX,
            old(self).access_counter < u64::MAX,
            old(self).memory_used + data@.len() <= usize::MAX,
        ensures
            final(self).wf(),
            Self::extend_post(*old(self), *final(self), key@, data@, false, now, r),
    {
        self.extend_at(key, data, false, now)
    }

    /// Append `data` to the live entry under `key`, judging time by the
    /// system clock.
    pub fn append(&mut self, key: &[u8], data: &[u8]) -> (r: StorageResult)
        requires
            old(self).wf(),
            old(self).cas_counter < u64::MAX,
            old(self).access_counter < u64::MAX,
            old(self).memory_used + data@.len() <= usize::MAX,
        ensures
            final(self).wf(),
            exists|now: u64|
                Self::extend_post(*old(self), *final(self), key@, data@, false, now, r),
    {
        let now = clock_seconds();
        self.extend_at(key, data, false, now)
    }

    /// Prepend `data` to the live entry under `key` at instant `now`.
    pub fn prepend_at(&mut self, key: &[u8], data: &[u8], now: u64) -> (r: StorageResult)
        requires
            old(self).wf(),
            old(self).cas_counter < u64::MAX,
            old(self).access_counter < u64::MAX,
            old(self).memory_used + data@.len() <= usize::MAX,
        ensures
            final(self).wf(),
            Self::extend_post(*old(self), *final(self), key@, data@, true, now, r),
    {
        self.extend_at(key, data, true, now)
    }

    /// Prepend `data` to the live entry under `key`, judging time by the
    /// system clock.
    pub fn prepend(&mut self, key: &[u8], data: &[u8]) -> (r: StorageResult)
        requires
            old(self).wf(),
            old(self).cas_counter < u64::MAX,
            old(self).access_counter < u64::MAX,
            old(self).memory_used + data@.len() <= usize::MAX,
        ensures
            final(self).wf(),
            exists|now: u64|
                Self::extend_post(*old(self), *final(self), key@, data@, true, now, r),
    {
        let now = clock_seconds();
        self.extend_at(key, data, true, now)
    }

    /// What `get_multi_at` does: one `get_at` per key, in order, collecting
    /// the hits.
    pub open spec fn get_multi_post(
        pre: Storage,
        post: Storage,
        keys: Seq<Seq<u8>>,
        now: u64,
        r: Seq<(Vec<u8>, CacheItem)>,
    ) -> bool
        decreases keys.len(),
    {
        if keys.len() == 0 {
            &&& post == pre
            &&& r.len() == 0
        } else {
            exists|m: Storage, h: Option<CacheItem>|
                {
                    &&& #[trigger] Self::get_post(pre, m, keys.first(), now, h)
                    &&& m.wf()
                    &&& match h {
                        Some(it) => {
                            &&& r.len() > 0
                            &&& r.first().0@ == keys.first()
                            &&& r.first().1 == it
                            &&& Self::get_multi_post(m, post, keys.drop_first(), now, r.drop_first())
                        },
                        None => Self::get_multi_post(m, post, keys.drop_first(), now, r),
                    }
                }
        }
    }

    /// Get copies of the items under several keys at instant `now`, in key
    /// order; expired entries are removed and omitted.
    pub fn get_multi_at(&mut self, keys: &[Vec<u8>], now: u64) -> (r: Vec<(Vec<u8>, CacheItem)>)
        requires
            old(self).wf(),
            old(self).access_counter + keys@.len() <= u64::MAX,
        ensures
            final(self).wf(),
            Self::get_multi_post(
                *old(self), *final(self), keys@.map_values(|k: Vec<u8>| k@), now, r@,
            ),
            final(self).access_counter <= old(self).access_counter + keys@.len(),
        decreases keys@.len(),
    {
        let ghost keyseqs = keys@.map_values(|k: Vec<u8>| k@);
        if keys.len() == 0 {
            let r: Vec<(Vec<u8>, CacheItem)> = Vec::new();
            return r;
        }
        let h = self.get_at(keys[0].as_slice(), now);
        let ghost m = *self;
        let ghost h_g = h;
        let rest = vstd::slice::slice_subrange(keys, 1, keys.len());
        proof {
            assert(rest@.map_values(|k: Vec<u8>| k@) =~= keyseqs.drop_first());
        }
        let mut tail = self.get_multi_at(rest, now);
        let ghost tail0 = tail@;
        match h {
            Some(it) => {
                let mut out: Vec<(Vec<u8>, CacheItem)> = Vec::new();
                out.push((clone_bytes(&keys[0]), it));
                out.append(&mut tail);
                proof {
                    assert(out@.first().0@ == keyseqs.first());
                    assert(out@.drop_first() =~= tail0);
                    assert(Self::get_multi_post(
                        m, *self, keyseqs.drop_first(), now, out@.drop_first(),
                    ));
                    assert(Self::get_post(*old(self), m, keyseqs.first(), now, h_g));
                }
                out
            }
            None => {
                proof {
                    assert(Self::get_post(*old(self), m, keyseqs.first(), now, h_g));
                }
                tail
            }
        }
    }

    /// Get copies of the items under several keys, judging time by the
    /// system clock.
    pub fn get_multi(&mut self, keys: &[Vec<u8>]) -> (r: Vec<(Vec<u8>, CacheItem)>)
        requires
            old(self).wf(),
            old(self).access_counter + keys@.len() <= u64::MAX,
        ensures
            final(self).wf(),
            ({
                let ks = keys@.map_values(|k: Vec<u8>| k@);
                exists|now: u64| Self::get_multi_post(*old(self), *final(self), ks, now, r@)
            }),
    {
        let now = clock_seconds();
        self.get_multi_at(keys, now)
    }

    /// Sweep out every expired entry at instant `now`; the live entries stay
    /// in order. Returns how many entries were removed.
    pub fn cleanup_expired_at(&mut self, now: u64) -> (r: usize)
        requires
            old(self).wf(),
        ensures
            final(self).wf(),
            final(self).entries@ == live_entries(old(self).entries@, now),
            r == old(self).entries@.len() - final(self).entries@.len(),
            final(self).memory_used == mem_total(final(self).entries@),
            final(self).max_memory == old(self).max_memory,
            final(self).default_ttl == old(self).default_ttl,
            final(self).cas_counter == old(self).cas_counter,
            final(self).access_counter == old(self).access_counter,
    {
        let before = self.entries.len();
        let ghost orig = self.entries@;
        let ghost pred = |e: Entry| !e.item.spec_expired(now);
        let mut i: usize = 0;
        let ghost k: int = 0;
        proof {
            reveal(Seq::filter);
            assert(orig.take(0).filter(pred) =~= Seq::<Entry>::empty());
            assert(self.entries@ =~= orig.take(0).filter(pred) + orig.skip(0));
        }
        while i < self.entries.len()
            invariant
                self.wf(),
                0 <= k <= orig.len(),
                i == orig.take(k).filter(pred).len(),
                forall|e: Entry| #[trigger] pred(e) == !e.item.spec_expired(now),
                i <= k,
                self.entries@ == orig.take(k).filter(pred) + orig.skip(k),
                self.memory_used == mem_total(self.entries@),
                self.max_memory == old(self).max_memory,
                self.default_ttl == old(self).default_ttl,
                self.cas_counter == old(self).cas_counter,
                self.access_counter == old(self).access_counter,
            decreases orig.len() - k,
        {
            proof {
                reveal(Seq::filter);
                assert(k < orig.len());
                assert(self.entries@[i as int] == orig[k]);
                assert(orig.take(k + 1).drop_last() =~= orig.take(k));
                assert(orig.take(k + 1).last() == orig[k]);
            }
            if self.entries[i].item.is_expired_at(now) {
                self.remove_entry(i);
                proof {
                    reveal(Seq::filter);
                    assert(orig.take(k + 1).filter(pred) =~= orig.take(k).filter(pred));
                    assert(self.entries@ =~= orig.take(k + 1).filter(pred) + orig.skip(k + 1));
                }
            } else {
                i = i + 1;
                proof {
                    reveal(Seq::filter);
                    assert(orig.take(k + 1).filter(pred)
                        =~= orig.take(k).filter(pred).push(orig[k]));
                    assert(self.entries@ =~= orig.take(k + 1).filter(pred) + orig.skip(k + 1));
                }
            }
            proof {
                k = k + 1;
            }
        }
        proof {
            assert(orig.take(k) =~= orig);
            assert(orig.skip(k) =~= Seq::<Entry>::empty());
            assert(self.entries@ =~= orig.filter(pred));
            orig.lemma_filter_len(pred);
        }
        before - self.entries.len()
    }

    /// Sweep out every expired entry, judging time by the system clock.
    pub fn cleanup_expired(&mut self) -> (r: usize)
        requires
            old(self).wf(),
        ensures
            final(self).wf(),
            exists|now: u64| {
                &&& final(self).entries@ == #[trigger] live_entries(old(self).entries@, now)
                &&& r == old(self).entries@.len() - final(self).entries@.len()
            },
            final(self).memory_used == mem_total(final(self).entries@),
            final(self).cas_counter == old(self).cas_counter,
    {
        let now = clock_seconds();
        self.cleanup_expired_at(now)
    }
}


/// Removing the only entry that bears `key` leaves no entry bearing it.
proof fn lemma_remove_only_key(s: Seq<Entry>, i: int, key: Seq<u8>)
    requires
        forall|a: int, b: int| 0 <= a < b < s.len() ==> s[a].key@ != s[b].key@,
        0 <= i < s.len(),
        s[i].key@ == key,
    ensures
        find_idx(s.remove(i), key) == -1,
{
    lemma_find_idx(s.remove(i), key);
    let r = find_idx(s.remove(i), key);
    if r >= 0 {
        if r < i {
            assert(s.remove(i)[r] == s[r]);
        } else {
            assert(s.remove(i)[r] == s[r + 1]);
        }
    }
}

/// Memory accounting: in a well-formed store the memory counter equals the
/// sum of `fixed overhead + key bytes + value bytes` over the stored
/// entries, and every operation of this module preserves well-formedness.
pub proof fn lemma_memory_accounting(s: Storage)
    requires
        s.wf(),
    ensures
        s.memory_used == mem_total(s.entries@),
{
}

/// CAS token uniqueness: in a well-formed store no two entries hold the
/// same CAS token, and every held token lies below the counter. Each
/// mutation that stores an item takes the counter's value as the fresh
/// token and leaves the counter strictly larger, so no token is ever
/// issued twice.
pub proof fn lemma_cas_tokens_unique(s: Storage)
    requires
        s.wf(),
    ensures
        forall|a: int, b: int| 0 <= a < b < s.entries@.len() ==>
            s.entries@[a].item.cas_unique != s.entries@[b].item.cas_unique,
        forall|a: int| 0 <= a < s.entries@.len() ==>
            (#[trigger] s.entries@[a].item.cas_unique) < s.cas_counter,
{
}

/// A store-then-read round trip: after a `set_at` (or an `add_at` or
/// `replace_at` that stored) of `value` under `key`, a `get_at` of `key` at
/// the same instant returns the freshly written value, its flags, and its
/// fresh CAS token.
pub proof fn lemma_set_then_get(
    s0: Storage,
    s1: Storage,
    s2: Storage,
    key: Seq<u8>,
    value: Seq<u8>,
    flags: u32,
    ttl: u64,
    now: u64,
    r1: StorageResult,
    r2: Option<CacheItem>,
)
    requires
        s0.wf(),
        s1.wf(),
        now < u64::MAX,
        Storage::set_post(s0, s1, key, value, flags, ttl, now, r1),
        Storage::get_post(s1, s2, key, now, r2),
    ensures
        r1 == StorageResult::Stored,
        match r2 {
            Some(it) => {
                &&& it.value@ == value
                &&& it.flags == flags
                &&& it.cas_unique == s0.cas_counter
            },
            None => false,
        },
{
    let needed = (ITEM_OVERHEAD + key.len() + value.len()) as nat;
    let mid = spec_evict(s0.entries@, s0.max_memory as nat, needed, now);
    let i = find_idx(mid, key);
    lemma_find_idx(mid, key);
    let j = if i >= 0 { i } else { s1.entries@.len() - 1 };
    assert(s1.entries@[j].key@ == key);
    assert(!s1.entries@[j].item.spec_expired(now));
    lemma_find_idx_unique(s1.entries@, key, j);
}

/// After a `cas_at` that stored, a `get_at` of the key at the same instant
/// returns the freshly written value.
pub proof fn lemma_cas_then_get(
    s0: Storage,
    s1: Storage,
    s2: Storage,
    key: Seq<u8>,
    value: Seq<u8>,
    flags: u32,
    ttl: u64,
    token: u64,
    now: u64,
    r2: Option<CacheItem>,
)
    requires
        s0.wf(),
        s1.wf(),
        now < u64::MAX,
        Storage::cas_post(s0, s1, key, value, flags, ttl, token, now, StorageResult::Stored),
        Storage::get_post(s1, s2, key, now, r2),
    ensures
        match r2 {
            Some(it) => {
                &&& it.value@ == value
                &&& it.flags == flags
                &&& it.cas_unique == s0.cas_counter
            },
            None => false,
        },
{
    let i0 = find_idx(s0.entries@, key);
    lemma_find_idx(s0.entries@, key);
    let j = s1.entries@.len() - 1;
    assert(s1.entries@[j].key@ == key);
    assert(!s1.entries@[j].item.spec_expired(now));
    lemma_find_idx_unique(s1.entries@, key, j);
}

/// After an `append_at` or `prepend_at` that stored, a `get_at` of the key
/// at the same instant returns the extended value.
pub proof fn lemma_extend_then_get(
    s0: Storage,
    s1: Storage,
    s2: Storage,
    key: Seq<u8>,
    data: Seq<u8>,
    prepend: bool,
    now: u64,
    r2: Option<CacheItem>,
)
    requires
        s0.wf(),
        s1.wf(),
        Storage::extend_post(s0, s1, key, data, prepend, now, StorageResult::Stored),
        Storage::get_post(s1, s2, key, now, r2),
    ensures
        ({
            let i = find_idx(s0.entries@, key);
            let old_value = s0.entries@[i].item.value@;
            match r2 {
                Some(it) => it.value@ == (if prepend { data + old_value } else { old_value + data }),
                None => false,
            }
        }),
{
    let i = find_idx(s0.entries@, key);
    lemma_find_idx(s0.entries@, key);
    if s0.memory_used + data.len() <= s0.max_memory {
        assert(s1.entries@[i].key@ == key);
        assert(!s1.entries@[i].item.spec_expired(now)) by {
            assert(s1.entries@[i].item.expires_at == s0.entries@[i].item.expires_at);
        }
        lemma_find_idx_unique(s1.entries@, key, i);
    } else {
        let mid = spec_evict(s0.entries@, s0.max_memory as nat, data.len(), now);
        let j = find_idx(mid, key);
        assert(j >= 0 && !mid[j].item.spec_expired(now));
        lemma_find_idx(mid, key);
        assert(s1.entries@[j].key@ == key);
        assert(!s1.entries@[j].item.spec_expired(now)) by {
            assert(s1.entries@[j].item.expires_at == mid[j].item.expires_at);
        }
        lemma_find_idx_unique(s1.entries@, key, j);
        assert(mid[j] == s0.entries@[i]) by {
            lemma_evict_same_key_entry(
                s0.entries@, s0.max_memory as nat, data.len(), now, key,
            );
        }
    }
}

/// An entry that survives eviction is the entry the original store held
/// under its key.
proof fn lemma_evict_same_key_entry(s: Seq<Entry>, max: nat, needed: nat, now: u64, key: Seq<u8>)
    requires
        forall|a: int, b: int| 0 <= a < b < s.len() ==> s[a].key@ != s[b].key@,
    ensures
        ({
            let m = spec_evict(s, max, needed, now);
            find_idx(m, key) >= 0 ==> {
                &&& find_idx(s, key) >= 0
                &&& m[find_idx(m, key)] == s[find_idx(s, key)]
            }
        }),
    decreases s.len(),
{
    let m = spec_evict(s, max, needed, now);
    if mem_total(s) + needed <= max || s.len() == 0 {
    } else if 0 <= victim_idx(s, now) < s.len() {
        let v = victim_idx(s, now);
        let s1 = s.remove(v);
        assert forall|a: int, b: int| 0 <= a < b < s1.len() implies
            s1[a].key@ != s1[b].key@ by {
            let a0 = if a < v { a } else { a + 1 };
            let b0 = if b < v { b } else { b + 1 };
            assert(s1[a] == s[a0] && s1[b] == s[b0]);
        }
        lemma_evict_same_key_entry(s1, max, needed, now, key);
        if find_idx(m, key) >= 0 {
            let r1 = find_idx(s1, key);
            lemma_find_idx(s1, key);
            let r0 = if r1 < v { r1 } else { r1 + 1 };
            assert(s1[r1] == s[r0]);
            lemma_find_idx_unique(s, key, r0);
        }
    }
}

/// Reads never see an expired item: a `get_at` hit at instant `now` is on a
/// key that is live at `now`, and the returned copy has not expired.
pub proof fn lemma_get_never_expired(
    pre: Storage,
    post: Storage,
    key: Seq<u8>,
    now: u64,
    it: CacheItem,
)
    requires
        Storage::get_post(pre, post, key, now, Some(it)),
    ensures
        pre.has_live(key, now),
        !it.spec_expired(now),
{
    lemma_find_idx(pre.entries@, key);
    let i = find_idx(pre.entries@, key);
    assert(it.expires_at == pre.entries@[i].item.expires_at);
}

/// `get_multi_at` never returns an expired item.
pub proof fn lemma_get_multi_never_expired(
    pre: Storage,
    post: Storage,
    keys: Seq<Seq<u8>>,
    now: u64,
    r: Seq<(Vec<u8>, CacheItem)>,
)
    requires
        Storage::get_multi_post(pre, post, keys, now, r),
    ensures
        forall|i: int| 0 <= i < r.len() ==> !(#[trigger] r[i]).1.spec_expired(now),
    decreases keys.len(),
{
    if keys.len() == 0 {
    } else {
        let (m, h): (Storage, Option<CacheItem>) = choose|m: Storage, h: Option<CacheItem>|
            {
                &&& #[trigger] Storage::get_post(pre, m, keys.first(), now, h)
                &&& m.wf()
                &&& match h {
                    Some(it) => {
                        &&& r.len() > 0
                        &&& r.first().0@ == keys.first()
                        &&& r.first().1 == it
                        &&& Storage::get_multi_post(m, post, keys.drop_first(), now, r.drop_first())
                    },
                    None => Storage::get_multi_post(m, post, keys.drop_first(), now, r),
                }
            };
        match h {
            Some(it) => {
                lemma_get_never_expired(pre, m, keys.first(), now, it);
                lemma_get_multi_never_expired(m, post, keys.drop_first(), now, r.drop_first());
                assert forall|i: int| 0 <= i < r.len() implies
                    !(#[trigger] r[i]).1.spec_expired(now) by {
                    if i > 0 {
                        assert(r[i] == r.drop_first()[i - 1]);
                    }
                }
            }
            None => {
                lemma_get_multi_never_expired(m, post, keys.drop_first(), now, r);
            }
        }
    }
}

/// Mutations never touch an expired item: a `cas_at` that stored, and an
/// `append_at` or `prepend_at` that stored, found the key live.
pub proof fn lemma_mutate_never_expired(
    pre: Storage,
    post1: Storage,
    post2: Storage,
    key: Seq<u8>,
    value: Seq<u8>,
    data: Seq<u8>,
    flags: u32,
    ttl: u64,
    token: u64,
    prepend: bool,
    now: u64,
)
    requires
        Storage::cas_post(pre, post1, key, value, flags, ttl, token, now, StorageResult::Stored)
            || Storage::extend_post(pre, post2, key, data, prepend, now, StorageResult::Stored),
    ensures
        pre.has_key(key),
        !pre.entries@[find_idx(pre.entries@, key)].item.spec_expired(now),
{
    lemma_find_idx(pre.entries@, key);
}

/// Deleting twice: the first `delete_at` reports `Deleted` exactly when the
/// key was present; an immediate second delete of the same key always
/// reports `NotFound` and changes nothing.
pub proof fn lemma_delete_twice(
    s0: Storage,
    s1: Storage,
    s2: Storage,
    key: Seq<u8>,
    r1: StorageResult,
    r2: StorageResult,
)
    requires
        s0.wf(),
        Storage::delete_post(s0, s1, key, r1),
        Storage::delete_post(s1, s2, key, r2),
    ensures
        r1 == StorageResult::Deleted <==> s0.has_key(key),
        r1 == StorageResult::Deleted || r1 == StorageResult::NotFound,
        r2 == StorageResult::NotFound,
        s2.entries@ == s1.entries@,
{
    let i = find_idx(s0.entries@, key);
    lemma_find_idx(s0.entries@, key);
    if i >= 0 {
        lemma_remove_only_key(s0.entries@, i, key);
    }
}

/// Setting twice: both `set_at` calls store, and the two freshly issued CAS
/// tokens differ.
pub proof fn lemma_set_twice(
    s0: Storage,
    s1: Storage,
    s2: Storage,
    key: Seq<u8>,
    value: Seq<u8>,
    flags: u32,
    ttl: u64,
    now1: u64,
    now2: u64,
    r1: StorageResult,
    r2: StorageResult,
)
    requires
        s0.wf(),
        Storage::set_post(s0, s1, key, value, flags, ttl, now1, r1),
        Storage::set_post(s1, s2, key, value, flags, ttl, now2, r2),
    ensures
        r1 == StorageResult::Stored,
        r2 == StorageResult::Stored,
        s1.cas_counter != s0.cas_counter,
{
}

/// After `flush_all` the store holds no items and accounts zero bytes, so a
/// `stats` snapshot reports an item count of zero and zero memory used.
pub proof fn lemma_flush_then_stats(s: Storage)
    requires
        s.wf(),
        s.entries@.len() == 0,
    ensures
        s.memory_used == 0,
        mem_total(s.entries@) == 0,
{
}

/// Seconds of the system clock.
///
/// Relies on std::time::SystemTime::now: the instant it returns, converted to
/// whole seconds since the Unix epoch (0 for a clock set before the epoch).
#[verifier::external_body]
pub fn clock_seconds() -> u64 {
    std::time::SystemTime::now()
        .duration_since(std::time::UNIX_EPOCH)
        .map(|d| d.as_secs())
        .unwrap_or(0)
}

} // verus!
