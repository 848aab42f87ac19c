//! Per-worker buffer pool with fixed-size buffers and a LIFO free list.
//!
//! Every buffer index is either on the free list or held by exactly one
//! caller; `wf` pins that discipline down and every operation preserves it.

use vstd::prelude::*;
use vstd::arithmetic::div_mod::{lemma_fundamental_div_mod, lemma_fundamental_div_mod_converse};

verus! {

/// Fixed-count, fixed-size pool of reusable byte buffers.
pub struct BufferPool {
    /// Actual buffer storage.
    pub buffers: Vec<Vec<u8>>,
    /// Stack of available buffer indices (LIFO for cache locality).
    pub free_list: Vec<usize>,
    /// Size of each buffer.
    pub buffer_size: usize,
}

impl BufferPool {
    /// Contents of buffer `i`.
    pub open spec fn buf(self, i: int) -> Seq<u8> {
        self.buffers@[i]@
    }

    /// The free stack, bottom first.
    pub open spec fn free_seq(self) -> Seq<usize> {
        self.free_list@
    }

    /// Whether index `idx` is currently on the free stack.
    pub open spec fn is_free(self, idx: usize) -> bool {
        self.free_list@.contains(idx)
    }

    /// Well-formedness: every buffer has the configured size, and the free
    /// stack holds valid, pairwise-distinct indices.
    pub open spec fn wf(self) -> bool {
        &&& 0 < self.buffer_size
        &&& forall|i: int| 0 <= i < self.buffers@.len() ==> self.buf(i).len() == self.buffer_size
        &&& forall|i: int| 0 <= i < self.free_list@.len() ==>
                (#[trigger] self.free_list@[i]) < self.buffers@.len()
        &&& forall|i: int, j: int| 0 <= i < j < self.free_list@.len() ==>
                self.free_list@[i] != self.free_list@[j]
    }


    /// The per-buffer size bound of `wf` carries over unchanged buffers.
    proof fn lemma_bufs_unchanged(a: Self, b: Self)
        requires
            a.wf(),
            b.buffers == a.buffers,
            b.buffer_size == a.buffer_size,
        ensures
            forall|i: int| 0 <= i < b.buffers@.len() ==> #[trigger] b.buf(i).len() == b.buffer_size,
    {
        assert forall|i: int| 0 <= i < b.buffers@.len() implies
            #[trigger] b.buf(i).len() == b.buffer_size by {
            assert(b.buf(i) == a.buf(i));
        }
    }

    /// Create a pool of `count` zero-filled buffers of `size` bytes each,
    /// all of them free.
    pub fn new(count: usize, size: usize) -> (pool: Self)
        requires
            0 < size,
        ensures
            pool.wf(),
            pool.buffers@.len() == count,
            pool.buffer_size == size,
            pool.free_seq() == Seq::new(count as nat, |i: int| i as usize),
            forall|i: int| 0 <= i < count ==> pool.buf(i) == Seq::new(size as nat, |j: int| 0u8),
    {
        let mut buffers: Vec<Vec<u8>> = Vec::with_capacity(count);
        let mut free_list: Vec<usize> = Vec::with_capacity(count);

        for i in 0..count
            invariant
                buffers@.len() == i,
                free_list@.len() == i,
                forall|k: int| 0 <= k < i ==> buffers@[k]@ == Seq::new(size as nat, |j: int| 0u8),
                forall|k: int| 0 <= k < i ==> free_list@[k] == k,
        {
            buffers.push(vec![0u8; size]);
            free_list.push(i);
        }

        let pool = Self { buffers, free_list, buffer_size: size };
        assert(pool.free_seq() =~= Seq::new(count as nat, |i: int| i as usize));
        pool
    }

    /// Allocate a buffer from the pool; `None` when none is available.
    pub fn alloc_buf(&mut self) -> (r: Option<usize>)
        requires
            old(self).wf(),
        ensures
            final(self).wf(),
            final(self).buffers == old(self).buffers,
            final(self).buffer_size == old(self).buffer_size,
            match r {
                Some(idx) => {
                    &&& old(self).free_seq().len() > 0
                    &&& idx == old(self).free_seq().last()
                    &&& idx < final(self).buffers@.len()
                    &&& final(self).free_seq() == old(self).free_seq().drop_last()
                    &&& !final(self).is_free(idx)
                },
                None => {
                    &&& old(self).free_seq().len() == 0
                    &&& final(self).free_seq() == old(self).free_seq()
                },
            },
    {
        let r = self.free_list.pop();
        proof {
            Self::lemma_bufs_unchanged(*old(self), *self);
            if r is Some {
                let idx = r->0;
                assert(old(self).free_seq().last() == idx);
                assert(!self.free_seq().contains(idx)) by {
                    if self.free_seq().contains(idx) {
                        let i = choose|i: int| 0 <= i < self.free_seq().len()
                            && self.free_seq()[i] == idx;
                        assert(old(self).free_seq()[i] == idx);
                        assert(old(self).free_seq()[old(self).free_seq().len() - 1] == idx);
                    }
                }
            }
        }
        r
    }

    /// Return a buffer to the pool. The index must be valid and must not
    /// already be free: a buffer is given back by the one holder it has.
    pub fn free(&mut self, idx: usize)
        requires
            old(self).wf(),
            idx < old(self).buffers@.len(),
            !old(self).is_free(idx),
        ensures
            final(self).wf(),
            final(self).buffers == old(self).buffers,
            final(self).buffer_size == old(self).buffer_size,
            final(self).free_seq() == old(self).free_seq().push(idx),
            final(self).is_free(idx),
    {
        proof {
            assert forall|i: int| 0 <= i < old(self).free_seq().len() implies
                old(self).free_seq()[i] != idx by {
                if old(self).free_seq()[i] == idx {
                    assert(old(self).free_seq().contains(idx));
                }
            }
        }
        self.free_list.push(idx);
        assert(self.free_seq().last() == idx);
        proof {
            Self::lemma_bufs_unchanged(*old(self), *self);
        }
    }

    /// Immutable access to buffer `idx`.
    pub fn get(&self, idx: usize) -> (buf: &[u8])
        requires
            self.wf(),
            idx < self.buffers@.len(),
        ensures
            buf@ == self.buf(idx as int),
            buf@.len() == self.buffer_size,
    {
        assert(self.buf(idx as int).len() == self.buffer_size);
        self.buffers[idx].as_slice()
    }

    /// Mutable access to buffer `idx`. The caller writes in place; the rest
    /// of the pool is untouched.
    pub fn get_mut(&mut self, idx: usize) -> (buf: &mut Vec<u8>)
        requires
            old(self).wf(),
            idx < old(self).buffers@.len(),
        ensures
            *buf == old(self).buffers@[idx as int],
            final(self).buffers@ == old(self).buffers@.update(idx as int, *final(buf)),
            final(self).free_list == old(self).free_list,
            final(self).buffer_size == old(self).buffer_size,
    {
        &mut self.buffers[idx]
    }

    /// Size of each buffer.
    pub fn buffer_size(&self) -> (r: usize)
        ensures
            r == self.buffer_size,
    {
        self.buffer_size
    }

    /// Total number of buffers.
    pub fn capacity(&self) -> (r: usize)
        ensures
            r == self.buffers@.len(),
    {
        self.buffers.len()
    }

    /// Number of buffers currently free.
    pub fn available(&self) -> (r: usize)
        ensures
            r == self.free_seq().len(),
    {
        self.free_list.len()
    }

    /// Allocate `count` buffers at once; all or nothing.
    pub fn alloc_many(&mut self, count: usize) -> (r: Option<Vec<usize>>)
        requires
            old(self).wf(),
        ensures
            final(self).wf(),
            final(self).buffers == old(self).buffers,
            final(self).buffer_size == old(self).buffer_size,
            match r {
                Some(v) => {
                    &&& count <= old(self).free_seq().len()
                    &&& v@.len() == count
                    &&& final(self).free_seq()
                        == old(self).free_seq().take(old(self).free_seq().len() - count)
                    &&& forall|k: int| 0 <= k < count ==>
                            v@[k] == old(self).free_seq()[old(self).free_seq().len() - 1 - k]
                    &&& forall|k: int| 0 <= k < count ==> !final(self).is_free(#[trigger] v@[k])
                    &&& forall|k: int| 0 <= k < count ==>
                            (#[trigger] v@[k]) < final(self).buffers@.len()
                    &&& forall|k: int, l: int| 0 <= k < l < count ==> v@[k] != v@[l]
                },
                None => {
                    &&& old(self).free_seq().len() < count
                    &&& final(self).free_seq() == old(self).free_seq()
                },
            },
    {
        if self.free_list.len() < count {
            return None;
        }
        let ghost orig = self.free_seq();
        let mut indices: Vec<usize> = Vec::with_capacity(count);
        for n in 0..count
            invariant
                self.wf(),
                self.buffers == old(self).buffers,
                self.buffer_size == old(self).buffer_size,
                count <= orig.len(),
                indices@.len() == n,
                self.free_seq() == orig.take(orig.len() - n),
                forall|k: int| 0 <= k < n ==> indices@[k] == orig[orig.len() - 1 - k],
        {
            assert(self.free_seq().len() == orig.len() - n);
            let idx = self.alloc_buf().unwrap();
            assert(orig.take(orig.len() - n).last() == orig[orig.len() - 1 - n]);
            assert(orig.take(orig.len() - n).drop_last() =~= orig.take(orig.len() - (n + 1)));
            indices.push(idx);
        }
        proof {
            assert(old(self).wf());
            Self::lemma_bufs_unchanged(*old(self), *self);
            assert forall|k: int| 0 <= k < count implies !self.is_free(#[trigger] indices@[k]) by {
                assert(indices@[k] == orig[orig.len() - 1 - k]);
                if self.is_free(indices@[k]) {
                    let i = choose|i: int| 0 <= i < self.free_seq().len()
                        && self.free_seq()[i] == indices@[k];
                    assert(self.free_seq()[i] == orig[i]);
                    assert(orig[i] == orig[orig.len() - 1 - k]);
                    assert(i < orig.len() - count);
                    assert(i < orig.len() - 1 - k);
                    assert(false);
                }
            }
        }
        Some(indices)
    }

    /// Free several buffers at once. The indices must be valid, pairwise
    /// distinct, and none of them already free.
    pub fn free_many(&mut self, indices: &[usize])
        requires
            old(self).wf(),
            forall|k: int| 0 <= k < indices@.len() ==>
                (#[trigger] indices@[k]) < old(self).buffers@.len(),
            forall|k: int| 0 <= k < indices@.len() ==> !old(self).is_free(#[trigger] indices@[k]),
            forall|k: int, l: int| 0 <= k < l < indices@.len() ==> indices@[k] != indices@[l],
        ensures
            final(self).wf(),
            final(self).buffers == old(self).buffers,
            final(self).buffer_size == old(self).buffer_size,
            final(self).free_seq() == old(self).free_seq() + indices@,
    {
        let ghost orig = self.free_seq();
        let n = indices.len();
        for pos in 0..n
            invariant
                self.wf(),
                self.buffers == old(self).buffers,
                self.buffer_size == old(self).buffer_size,
                n == indices@.len(),
                self.free_seq() == orig + indices@.take(pos as int),
                forall|k: int| 0 <= k < indices@.len() ==>
                    (#[trigger] indices@[k]) < self.buffers@.len(),
                forall|k: int| pos <= k < indices@.len() ==>
                    !self.is_free(#[trigger] indices@[k]),
                forall|k: int, l: int| 0 <= k < l < indices@.len() ==> indices@[k] != indices@[l],
        {
            let idx = indices[pos];
            let ghost pre = *self;
            self.free(idx);
            proof {
                assert(self.free_seq() =~= orig + indices@.take(pos + 1));
                assert forall|k: int| pos + 1 <= k < indices@.len() implies
                    !self.is_free(#[trigger] indices@[k]) by {
                    if self.is_free(indices@[k]) {
                        let i = choose|i: int| 0 <= i < self.free_seq().len()
                            && self.free_seq()[i] == indices@[k];
                        if i < self.free_seq().len() - 1 {
                            assert(self.free_seq()[i] == pre.free_seq()[i]);
                            assert(pre.free_seq().contains(indices@[k]));
                            assert(pre.is_free(indices@[k]));
                        } else {
                            assert(self.free_seq()[i] == idx);
                            assert(indices@[pos as int] != indices@[k]);
                        }
                    }
                }
            }
        }
        assert(self.free_seq() =~= orig + indices@);
    }
}

/// Error returned when buffer chain operations fail.
#[derive(Debug, Clone, Copy, PartialEq, Eq, Structural)]
pub enum ChainError {
    /// No buffers available in the pool.
    PoolExhausted,
    /// Value exceeds maximum allowed size.
    ValueTooLarge,
}

/// Position `p` in a chain of `s`-sized buffers splits into buffer `q`,
/// offset `r`.
proof fn lemma_chain_split(p: int, s: int, q: int, r: int)
    requires
        0 < s,
        0 <= r < s,
        0 <= q,
        p == q * s + r,
    ensures
        p / s == q,
        p % s == r,
{
    lemma_fundamental_div_mod_converse(p, s, q, r);
}

/// A position below `c` buffers' worth of bytes lies in a buffer below `c`.
proof fn lemma_chain_bound(p: int, c: int, s: int)
    requires
        0 < s,
        0 <= p,
        p < c * s,
    ensures
        0 <= p / s < c,
        0 <= p % s < s,
        p == (p / s) * s + (p % s),
{
    lemma_fundamental_div_mod(p, s);
    assert(0 <= p % s < s);
    assert(0 <= p / s) by (nonlinear_arith)
        requires 0 < s, 0 <= p, p == s * (p / s) + p % s, 0 <= p % s < s;
    if p / s >= c {
        assert(s * (p / s) >= s * c) by (nonlinear_arith)
            requires 0 < s, p / s >= c;
        assert(s * c == c * s) by (nonlinear_arith);
        assert(false);
    }
    assert(p == (p / s) * s + (p % s)) by (nonlinear_arith)
        requires p == s * (p / s) + p % s;
}

/// A chain of buffer indices representing one logical byte sequence that may
/// span several pool buffers. The last buffer may be partially filled; every
/// earlier one is full.
pub struct BufferChain {
    /// Buffer indices in order.
    pub buffers: Vec<usize>,
    /// Total bytes stored (the last buffer may be partially filled).
    pub len: usize,
    /// Size of each buffer (from the pool).
    pub buffer_size: usize,
}

impl BufferChain {
    /// The bytes the chain holds: the first `len` bytes of its buffers laid
    /// end to end.
    pub open spec fn content(self, pool: BufferPool) -> Seq<u8> {
        Seq::new(
            self.len as nat,
            |k: int|
                pool.buf(
                    self.buffers@[k / (self.buffer_size as int)] as int,
                )[k % (self.buffer_size as int)],
        )
    }

    /// Well-formedness of the chain against its owning pool: the chain holds
    /// valid, pairwise-distinct indices, none of them free, and its length
    /// fits in its buffers.
    pub open spec fn wf_for(self, pool: BufferPool) -> bool {
        &&& pool.wf()
        &&& self.buffer_size == pool.buffer_size
        &&& self.len <= self.buffers@.len() * self.buffer_size
        &&& forall|i: int| 0 <= i < self.buffers@.len() ==>
                (#[trigger] self.buffers@[i]) < pool.buffers@.len()
        &&& forall|i: int, j: int| 0 <= i < j < self.buffers@.len() ==>
                self.buffers@[i] != self.buffers@[j]
        &&& forall|i: int| 0 <= i < self.buffers@.len() ==>
                !pool.is_free(#[trigger] self.buffers@[i])
    }

    /// Create a new empty buffer chain.
    pub fn new(buffer_size: usize) -> (chain: Self)
        requires
            0 < buffer_size,
        ensures
            chain.buffers@.len() == 0,
            chain.len == 0,
            chain.buffer_size == buffer_size,
    {
        Self { buffers: Vec::new(), len: 0, buffer_size }
    }

    /// Create a chain with a single pre-allocated buffer.
    pub fn with_buffer(buffer_idx: usize, buffer_size: usize) -> (chain: Self)
        requires
            0 < buffer_size,
        ensures
            chain.buffers@ == seq![buffer_idx],
            chain.len == 0,
            chain.buffer_size == buffer_size,
    {
        let mut buffers: Vec<usize> = Vec::new();
        buffers.push(buffer_idx);
        assert(buffers@ =~= seq![buffer_idx]);
        Self { buffers, len: 0, buffer_size }
    }

    /// Total bytes stored in the chain.
    pub fn len(&self) -> (r: usize)
        ensures
            r == self.len,
    {
        self.len
    }

    /// Whether the chain holds no bytes.
    pub fn is_empty(&self) -> (r: bool)
        ensures
            r == (self.len == 0),
    {
        self.len == 0
    }

    /// Number of buffers in the chain.
    pub fn buffer_count(&self) -> (r: usize)
        ensures
            r == self.buffers@.len(),
    {
        self.buffers.len()
    }

    /// Size of each buffer.
    pub fn buffer_size(&self) -> (r: usize)
        ensures
            r == self.buffer_size,
    {
        self.buffer_size
    }

    /// The buffer indices, in chain order.
    pub fn buffer_indices(&self) -> (r: &[usize])
        ensures
            r@ == self.buffers@,
    {
        self.buffers.as_slice()
    }

    /// Append one byte at the end of the chain, allocating a buffer from the
    /// pool when the tail buffer is full.
    fn push_byte(&mut self, b: u8, pool: &mut BufferPool) -> (r: Result<(), ChainError>)
        requires
            old(self).wf_for(*old(pool)),
            old(self).len < usize::MAX,
        ensures
            final(pool).buffer_size == old(pool).buffer_size,
            final(pool).buffers@.len() == old(pool).buffers@.len(),
            final(self).buffer_size == old(self).buffer_size,
            match r {
                Ok(()) => {
                    &&& final(self).wf_for(*final(pool))
                    &&& final(self).len == old(self).len + 1
                    &&& final(self).content(*final(pool))
                        == old(self).content(*old(pool)).push(b)
                    &&& final(self).buffers@.len() >= old(self).buffers@.len()
                    &&& final(self).buffers@.take(old(self).buffers@.len() as int)
                        == old(self).buffers@
                    &&& final(pool).free_seq() == old(pool).free_seq().take(
                            old(pool).free_seq().len()
                                - (final(self).buffers@.len() - old(self).buffers@.len()),
                        )
                    &&& final(self).buffers@.len() - old(self).buffers@.len() <= 1
                    &&& final(self).buffers@.len() - old(self).buffers@.len()
                        <= old(pool).free_seq().len()
                    &&& forall|i: int|
                            0 <= i < final(pool).buffers@.len()
                                && !final(self).buffers@.contains(i as usize)
                                ==> final(pool).buf(i) == old(pool).buf(i)
                },
                Err(e) => {
                    &&& e == ChainError::PoolExhausted
                    &&& *final(self) == *old(self)
                    &&& final(pool).buffers == old(pool).buffers
                    &&& final(pool).free_seq() == old(pool).free_seq()
                    &&& final(pool).wf()
                    &&& old(pool).free_seq().len() == 0
                    &&& old(self).len == old(self).buffers@.len() * old(self).buffer_size
                },
            },
    {
        let size = self.buffer_size;
        let bi = self.len / size;
        let off = self.len % size;
        proof {
            lemma_fundamental_div_mod(self.len as int, size as int);
            if self.len < self.buffers@.len() * size {
                lemma_chain_bound(self.len as int, self.buffers@.len() as int, size as int);
                assert(bi < self.buffers@.len());
            } else {
                assert(self.len == self.buffers@.len() * size);
                lemma_chain_split(
                    self.len as int, size as int, self.buffers@.len() as int, 0,
                );
                assert(bi == self.buffers@.len() && off == 0);
            }
        }
        if bi == self.buffers.len() {
            match pool.alloc_buf() {
                Some(idx) => {
                    self.buffers.push(idx);
                }
                None => {
                    return Err(ChainError::PoolExhausted);
                }
            }
        }
        let ghost mid_chain = *self;
        let ghost mid_pool = *pool;
        let idx = self.buffers[bi];
        proof {
            assert(mid_pool.buffers@ == old(pool).buffers@);
            assert(mid_pool.buf(idx as int) == old(pool).buf(idx as int));
            assert(old(pool).buf(idx as int).len() == old(pool).buffer_size);
        }
        let buf = pool.get_mut(idx);
        assert(buf@.len() == old(pool).buffer_size);
        buf[off] = b;
        self.len = self.len + 1;
        proof {
            let s = size as int;
            let p = old(self).len as int;
            assert(pool.buf(idx as int) == old(pool).buf(idx as int).update(off as int, b));
            assert forall|i: int|
                0 <= i < pool.buffers@.len() && i != idx
                implies pool.buf(i) == old(pool).buf(i) by {
                assert(pool.buffers@[i] == mid_pool.buffers@[i]);
            }
            assert(self.wf_for(*pool)) by {
                assert(self.len <= self.buffers@.len() * s) by (nonlinear_arith)
                    requires
                        self.len == p + 1,
                        p == bi * s + off,
                        0 <= off < s,
                        bi < self.buffers@.len(),
                        0 < s;
            }
            assert(self.content(*pool) =~= old(self).content(*old(pool)).push(b)) by {
                assert forall|k: int| 0 <= k < self.len implies
                    self.content(*pool)[k] == old(self).content(*old(pool)).push(b)[k] by {
                    if k < p {
                        lemma_chain_bound(k, self.buffers@.len() as int, s);
                        let kb = k / s;
                        let ko = k % s;
                        assert(kb * s + ko < bi * s + off || kb == bi);
                        if kb == bi {
                            assert(ko < off) by (nonlinear_arith)
                                requires
                                    kb == bi,
                                    k == kb * s + ko,
                                    p == bi * s + off,
                                    k < p;
                            assert(self.buffers@[kb] == idx);
                            assert(self.content(*pool)[k]
                                == pool.buf(idx as int)[ko]);
                        } else {
                            assert(kb < bi) by (nonlinear_arith)
                                requires
                                    kb != bi,
                                    k == kb * s + ko,
                                    p == bi * s + off,
                                    k < p,
                                    0 <= ko < s,
                                    0 <= off < s,
                                    0 < s,
                                    0 <= kb;
                            assert(self.buffers@[kb] != idx);
                            assert(pool.buf(self.buffers@[kb] as int)
                                == old(pool).buf(self.buffers@[kb] as int));
                        }
                    } else {
                        lemma_chain_split(k, s, bi as int, off as int);
                        assert(self.content(*pool)[k]
                            == pool.buf(idx as int)[off as int]);
                    }
                }
            }
            if old(self).len < old(self).buffers@.len() * s {
                assert(self.buffers@.take(old(self).buffers@.len() as int)
                    =~= old(self).buffers@);
                assert(pool.free_seq() =~= old(pool).free_seq().take(
                    old(pool).free_seq().len() as int));
            } else {
                assert(self.buffers@.take(old(self).buffers@.len() as int)
                    =~= old(self).buffers@);
            }
        }
        Ok(())
    }

    /// Append data to the chain, allocating buffers as needed.
    ///
    /// When the pool runs dry the chain keeps the prefix of `data` that fit
    /// (its buffers are then all full) and `PoolExhausted` comes back.
    pub fn append(&mut self, data: &[u8], pool: &mut BufferPool) -> (r: Result<(), ChainError>)
        requires
            old(self).wf_for(*old(pool)),
            old(self).len + data@.len() <= usize::MAX,
        ensures
            final(pool).buffer_size == old(pool).buffer_size,
            final(pool).buffers@.len() == old(pool).buffers@.len(),
            final(self).buffer_size == old(self).buffer_size,
            final(self).wf_for(*final(pool)),
            final(self).buffers@.len() >= old(self).buffers@.len(),
            final(self).buffers@.take(old(self).buffers@.len() as int) == old(self).buffers@,
            final(pool).free_seq() == old(pool).free_seq().take(
                old(pool).free_seq().len()
                    - (final(self).buffers@.len() - old(self).buffers@.len()),
            ),
            forall|i: int|
                0 <= i < final(pool).buffers@.len()
                    && !final(self).buffers@.contains(i as usize)
                    ==> final(pool).buf(i) == old(pool).buf(i),
            match r {
                Ok(()) => {
                    &&& final(self).len == old(self).len + data@.len()
                    &&& final(self).content(*final(pool))
                        == old(self).content(*old(pool)) + data@
                },
                Err(e) => {
                    &&& e == ChainError::PoolExhausted
                    &&& final(pool).free_seq().len() == 0
                    &&& final(self).len
                        == final(self).buffers@.len() * final(self).buffer_size
                    &&& final(self).len - old(self).len < data@.len()
                    &&& final(self).content(*final(pool))
                        == old(self).content(*old(pool))
                            + data@.take(final(self).len - old(self).len)
                },
            },
    {
        let n = data.len();
        for i in 0..n
            invariant
                n == data@.len(),
                self.wf_for(*pool),
                self.len == old(self).len + i,
                self.buffer_size == old(self).buffer_size,
                pool.buffer_size == old(pool).buffer_size,
                pool.buffers@.len() == old(pool).buffers@.len(),
                self.content(*pool) == old(self).content(*old(pool)) + data@.take(i as int),
                old(self).len + data@.len() <= usize::MAX,
                self.buffers@.len() >= old(self).buffers@.len(),
                self.buffers@.take(old(self).buffers@.len() as int) == old(self).buffers@,
                self.buffers@.len() - old(self).buffers@.len()
                    <= old(pool).free_seq().len(),
                pool.free_seq() == old(pool).free_seq().take(
                    old(pool).free_seq().len()
                        - (self.buffers@.len() - old(self).buffers@.len()),
                ),
                forall|j: int|
                    0 <= j < pool.buffers@.len() && !self.buffers@.contains(j as usize)
                        ==> pool.buf(j) == old(pool).buf(j),
        {
            let ghost pre_chain = *self;
            let ghost pre_pool = *pool;
            let b = data[i];
            match self.push_byte(b, pool) {
                Ok(()) => {
                    proof {
                        assert(self.content(*pool)
                            =~= old(self).content(*old(pool)) + data@.take(i + 1));
                        assert(self.buffers@.take(old(self).buffers@.len() as int)
                            =~= pre_chain.buffers@.take(old(self).buffers@.len() as int));
                        let g0 = pre_chain.buffers@.len() - old(self).buffers@.len();
                        let g1 = self.buffers@.len() - pre_chain.buffers@.len();
                        assert(pre_pool.free_seq().len() == old(pool).free_seq().len() - g0);
                        assert(pool.free_seq()
                            == pre_pool.free_seq().take(pre_pool.free_seq().len() - g1));
                        assert(g1 <= pre_pool.free_seq().len());
                        assert(pool.free_seq() =~= old(pool).free_seq().take(
                            old(pool).free_seq().len()
                                - (self.buffers@.len() - old(self).buffers@.len()),
                        ));
                        assert forall|j: int|
                            0 <= j < pool.buffers@.len()
                                && !self.buffers@.contains(j as usize)
                            implies pool.buf(j) == old(pool).buf(j) by {
                            assert(!pre_chain.buffers@.contains(j as usize)) by {
                                if pre_chain.buffers@.contains(j as usize) {
                                    let x = choose|x: int|
                                        0 <= x < pre_chain.buffers@.len()
                                            && pre_chain.buffers@[x] == j as usize;
                                    assert(self.buffers@.take(pre_chain.buffers@.len() as int)
                                        =~= pre_chain.buffers@);
                                    assert(self.buffers@[x] == j as usize);
                                }
                            }
                        }
                    }
                }
                Err(e) => {
                    proof {
                        assert(self.content(*pool)
                            =~= old(self).content(*old(pool)) + data@.take(i as int));
                    }
                    return Err(e);
                }
            }
        }
        proof {
            assert(data@.take(n as int) =~= data@);
        }
        Ok(())
    }
}


impl BufferChain {
    /// Assemble the chain's bytes into one contiguous vector.
    pub fn assemble(&self, pool: &BufferPool) -> (r: Vec<u8>)
        requires
            self.wf_for(*pool),
        ensures
            r@ == self.content(*pool),
    {
        let size = self.buffer_size;
        let mut result: Vec<u8> = Vec::with_capacity(self.len);
        let n = self.len;
        for k in 0..n
            invariant
                self.wf_for(*pool),
                n == self.len,
                size == self.buffer_size,
                result@ == self.content(*pool).take(k as int),
        {
            proof {
                lemma_chain_bound(k as int, self.buffers@.len() as int, size as int);
            }
            let bi = k / size;
            let off = k % size;
            let b = pool.get(self.buffers[bi])[off];
            result.push(b);
            proof {
                assert(result@ =~= self.content(*pool).take(k + 1));
            }
        }
        proof {
            assert(self.content(*pool).take(self.len as int) =~= self.content(*pool));
        }
        result
    }

    /// The chain's bytes as one contiguous value.
    pub fn as_contiguous(&self, pool: &BufferPool) -> (r: Vec<u8>)
        requires
            self.wf_for(*pool),
        ensures
            r@ == self.content(*pool),
    {
        self.assemble(pool)
    }

    /// Start of chunk `i` within the content: `i` full buffers in, clipped
    /// at the length.
    pub open spec fn chunk_start(self, i: int) -> int {
        if self.len < i * self.buffer_size {
            self.len as int
        } else {
            i * self.buffer_size
        }
    }

    /// The bytes of the chain that lie in buffer `i`.
    pub open spec fn chunk(self, pool: BufferPool, i: int) -> Seq<u8> {
        self.content(pool).subrange(self.chunk_start(i), self.chunk_start(i + 1))
    }

    /// Copy out the chain one buffer's worth at a time: chunk `i` holds the
    /// bytes that lie in buffer `i`, the last non-empty one possibly short.
    pub fn chunks(&self, pool: &BufferPool) -> (r: Vec<Vec<u8>>)
        requires
            self.wf_for(*pool),
        ensures
            r@.len() == self.buffers@.len(),
            forall|i: int| 0 <= i < r@.len() ==> (#[trigger] r@[i])@ == self.chunk(*pool, i),
    {
        let all = self.assemble(pool);
        let size = self.buffer_size;
        let n = self.buffers.len();
        let mut r: Vec<Vec<u8>> = Vec::with_capacity(n);
        let mut cursor: usize = 0;
        for i in 0..n
            invariant
                self.wf_for(*pool),
                n == self.buffers@.len(),
                size == self.buffer_size,
                all@ == self.content(*pool),
                r@.len() == i,
                cursor == self.chunk_start(i as int),
                cursor <= self.len,
                forall|j: int| 0 <= j < i ==> (#[trigger] r@[j])@ == self.chunk(*pool, j),
        {
            let end = if self.len - cursor < size {
                self.len
            } else {
                cursor + size
            };
            proof {
                let s = size as int;
                let ii = i as int;
                if cursor == self.len {
                    assert(self.len <= ii * s);
                    assert(ii * s <= (ii + 1) * s) by (nonlinear_arith)
                        requires 0 < s, 0 <= ii;
                    assert(end == self.chunk_start(ii + 1));
                } else {
                    assert(cursor == ii * s);
                    assert(ii * s + s == (ii + 1) * s) by (nonlinear_arith);
                    if self.len - cursor < size {
                        assert(end == self.chunk_start(ii + 1));
                    } else {
                        assert(end == self.chunk_start(ii + 1));
                    }
                }
            }
            let piece = vstd::slice::slice_to_vec(&all[cursor..end]);
            r.push(piece);
            cursor = end;
        }
        r
    }

    /// Clear the chain without releasing its buffers, so they can be reused
    /// for the next request on the same connection.
    pub fn clear(&mut self)
        ensures
            final(self).len == 0,
            final(self).buffers == old(self).buffers,
            final(self).buffer_size == old(self).buffer_size,
    {
        self.len = 0;
    }

    /// Release all buffers back to the pool and reset the chain.
    pub fn release(&mut self, pool: &mut BufferPool)
        requires
            old(self).wf_for(*old(pool)),
        ensures
            final(self).len == 0,
            final(self).buffers@.len() == 0,
            final(self).buffer_size == old(self).buffer_size,
            final(pool).wf(),
            final(pool).buffers == old(pool).buffers,
            final(pool).buffer_size == old(pool).buffer_size,
            final(pool).free_seq() == old(pool).free_seq() + old(self).buffers@,
    {
        pool.free_many(self.buffers.as_slice());
        self.buffers.clear();
        self.len = 0;
    }

    /// Take ownership of the buffer indices, leaving the chain empty. The
    /// caller becomes responsible for freeing them.
    pub fn take_buffers(&mut self) -> (r: Vec<usize>)
        ensures
            r == old(self).buffers,
            final(self).len == 0,
            final(self).buffers@.len() == 0,
            final(self).buffer_size == old(self).buffer_size,
    {
        let mut out: Vec<usize> = Vec::new();
        core::mem::swap(&mut out, &mut self.buffers);
        self.len = 0;
        out
    }

    /// Set the length after data was written directly into the chain's
    /// buffers. The length must fit in the buffers the chain holds.
    pub fn set_len(&mut self, len: usize)
        requires
            len <= old(self).buffers@.len() * old(self).buffer_size,
        ensures
            final(self).len == len,
            final(self).buffers == old(self).buffers,
            final(self).buffer_size == old(self).buffer_size,
    {
        self.len = len;
    }

    /// Add a pre-allocated buffer to the chain.
    pub fn push_buffer(&mut self, buf_idx: usize)
        ensures
            final(self).buffers@ == old(self).buffers@.push(buf_idx),
            final(self).len == old(self).len,
            final(self).buffer_size == old(self).buffer_size,
    {
        self.buffers.push(buf_idx);
    }

    /// A borrowed view of the first `n` bytes, available only while they sit
    /// in the first buffer; `None` when the chain is shorter than `n` or the
    /// bytes would span buffers.
    pub fn first_n_bytes<'a>(&'a self, n: usize, pool: &'a BufferPool) -> (r: Option<&'a [u8]>)
        requires
            self.wf_for(*pool),
        ensures
            match r {
                Some(s) => {
                    &&& n <= self.len
                    &&& n <= self.buffer_size
                    &&& self.buffers@.len() > 0
                    &&& s@ == self.content(*pool).take(n as int)
                },
                None => self.len < n || n > self.buffer_size || self.buffers@.len() == 0,
            },
    {
        if self.len < n {
            return None;
        }
        if n <= self.buffer_size && self.buffers.len() > 0 {
            let buf = pool.get(self.buffers[0]);
            let r = &buf[0..n];
            proof {
                let s = self.buffer_size as int;
                assert forall|k: int| 0 <= k < n implies
                    r@[k] == self.content(*pool).take(n as int)[k] by {
                    lemma_chain_split(k, s, 0, k);
                }
                assert(r@ =~= self.content(*pool).take(n as int));
            }
            Some(r)
        } else {
            None
        }
    }
}

/// Concatenation of the byte ranges named by `(buffer, start, end)` triples.
pub open spec fn cat_slices(pool: BufferPool, s: Seq<(usize, usize, usize)>) -> Seq<u8>
    decreases s.len(),
{
    if s.len() == 0 {
        Seq::empty()
    } else {
        pool.buf(s[0].0 as int).subrange(s[0].1 as int, s[0].2 as int)
            + cat_slices(pool, s.drop_first())
    }
}

proof fn lemma_cat_slices_push(pool: BufferPool, s: Seq<(usize, usize, usize)>, t: (usize, usize, usize))
    ensures
        cat_slices(pool, s.push(t))
            == cat_slices(pool, s) + pool.buf(t.0 as int).subrange(t.1 as int, t.2 as int),
    decreases s.len(),
{
    if s.len() == 0 {
        assert(s.push(t).drop_first() =~= s);
        assert(cat_slices(pool, s.push(t))
            =~= cat_slices(pool, s) + pool.buf(t.0 as int).subrange(t.1 as int, t.2 as int));
    } else {
        assert(s.push(t).drop_first() =~= s.drop_first().push(t));
        lemma_cat_slices_push(pool, s.drop_first(), t);
        assert(cat_slices(pool, s.push(t))
            =~= cat_slices(pool, s) + pool.buf(t.0 as int).subrange(t.1 as int, t.2 as int));
    }
}

impl BufferChain {
    /// Byte ranges for scatter-gather writes, resuming at `start_offset`:
    /// `(buffer index, start, end)` triples whose concatenation is the
    /// content from `start_offset` on.
    pub fn io_slices(&self, pool: &BufferPool, start_offset: usize) -> (r: Vec<(usize, usize, usize)>)
        requires
            self.wf_for(*pool),
        ensures
            start_offset < self.len ==>
                cat_slices(*pool, r@) == self.content(*pool).skip(start_offset as int),
            start_offset >= self.len ==> r@.len() == 0,
            forall|i: int| 0 <= i < r@.len() ==> {
                &&& (#[trigger] r@[i]).0 < pool.buffers@.len()
                &&& r@[i].1 <= r@[i].2 <= pool.buffer_size
            },
    {
        let mut r: Vec<(usize, usize, usize)> = Vec::new();
        if start_offset >= self.len {
            return r;
        }
        let size = self.buffer_size;
        let mut cursor: usize = start_offset;
        while cursor < self.len
            invariant
                self.wf_for(*pool),
                size == self.buffer_size,
                start_offset <= cursor <= self.len,
                cat_slices(*pool, r@)
                    == self.content(*pool).subrange(start_offset as int, cursor as int),
                forall|i: int| 0 <= i < r@.len() ==> {
                    &&& (#[trigger] r@[i]).0 < pool.buffers@.len()
                    &&& r@[i].1 <= r@[i].2 <= pool.buffer_size
                },
            decreases self.len - cursor,
        {
            proof {
                lemma_chain_bound(cursor as int, self.buffers@.len() as int, size as int);
            }
            let bi = cursor / size;
            let off = cursor % size;
            let end_in_buf = if self.len - cursor < size - off {
                off + (self.len - cursor)
            } else {
                size
            };
            let ghost prev = r@;
            let ghost prev_cursor = cursor as int;
            r.push((self.buffers[bi], off, end_in_buf));
            cursor = cursor + (end_in_buf - off);
            proof {
                let s = size as int;
                let seg = pool.buf(self.buffers@[bi as int] as int)
                    .subrange(off as int, end_in_buf as int);
                lemma_cat_slices_push(*pool, prev, (self.buffers@[bi as int], off, end_in_buf));
                assert(seg.len() == end_in_buf - off);
                assert forall|t: int| 0 <= t < end_in_buf - off implies
                    seg[t] == self.content(*pool)[prev_cursor + t] by {
                    lemma_chain_split(prev_cursor + t, s, bi as int, off + t);
                }
                assert(cat_slices(*pool, r@)
                    =~= self.content(*pool).subrange(start_offset as int, cursor as int));
            }
        }
        proof {
            assert(self.content(*pool).subrange(start_offset as int, self.len as int)
                =~= self.content(*pool).skip(start_offset as int));
        }
        r
    }
}

/// A buffer held by a well-formed chain is never on its pool's free list:
/// at any instant an index is either free or held, never both. Together
/// with the precondition of `BufferPool::free`, an index given back to the
/// pool was not free at the moment of return.
pub proof fn lemma_held_buffers_not_free(chain: BufferChain, pool: BufferPool)
    requires
        chain.wf_for(pool),
    ensures
        forall|i: int| 0 <= i < chain.buffers@.len() ==>
            !pool.is_free(#[trigger] chain.buffers@[i]),
{
}

} // verus!
