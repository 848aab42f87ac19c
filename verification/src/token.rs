//! Operation tokens for a completion-based event loop: each submitted
//! operation gets a slab-allocated token (its user-data value) that names
//! the operation and its resources when the completion arrives.

use vstd::prelude::*;

verus! {

/// An in-flight operation.
#[derive(Debug, Clone, Copy, PartialEq, Eq, Structural)]
pub enum OpType {
    /// Accept on the listener socket.
    Accept,
    /// Read on a connection; the kernel picks the buffer.
    Read {
        /// Connection id in the registry.
        conn_id: usize,
    },
    /// Write on a connection from a pool buffer.
    Write {
        /// Connection id in the registry.
        conn_id: usize,
        /// Buffer index in the write pool.
        buf_idx: usize,
    },
}

/// The entries an operation slab holds, by key.
pub uninterp spec fn op_slab_view(s: slab::Slab<OpType>) -> Map<usize, OpType>;

/// Relies on slab::Slab::with_capacity: a fresh slab holds no entries.
#[verifier::external_body]
fn op_slab_new(capacity: usize) -> (out: slab::Slab<OpType>)
    ensures
        (op_slab_view(out) == Map::<usize, OpType>::empty()),
        op_slab_view(out).dom().finite(),
{
    slab::Slab::with_capacity(capacity)
}

/// Relies on slab::Slab::insert: the value goes into a vacant slot and its
/// key comes back.
#[verifier::external_body]
fn op_slab_insert(s: &mut slab::Slab<OpType>, op: OpType) -> (k: usize)
    ensures
        !op_slab_view(*old(s)).dom().contains(k),
        op_slab_view(*final(s)) == op_slab_view(*old(s)).insert(k, op),
{
    s.insert(op)
}

/// Relies on slab::Slab::get: the entry under an occupied key.
#[verifier::external_body]
fn op_slab_get(s: &slab::Slab<OpType>, k: usize) -> (r: Option<&OpType>)
    ensures
        match r {
            Some(op) => op_slab_view(*s).dom().contains(k) && *op == op_slab_view(*s)[k],
            None => !op_slab_view(*s).dom().contains(k),
        },
{
    s.get(k)
}

/// Relies on slab::Slab::remove, which panics on a vacant key: the key must
/// be occupied, and its entry comes out.
#[verifier::external_body]
fn op_slab_remove(s: &mut slab::Slab<OpType>, k: usize) -> (op: OpType)
    requires
        op_slab_view(*old(s)).dom().contains(k),
    ensures
        op == op_slab_view(*old(s))[k],
        op_slab_view(*final(s)) == op_slab_view(*old(s)).remove(k),
{
    s.remove(k)
}

/// Relies on slab::Slab::contains.
#[verifier::external_body]
fn op_slab_contains(s: &slab::Slab<OpType>, k: usize) -> (r: bool)
    ensures
        r == op_slab_view(*s).dom().contains(k),
{
    s.contains(k)
}

/// Relies on slab::Slab::len: the number of occupied slots.
#[verifier::external_body]
fn op_slab_len(s: &slab::Slab<OpType>) -> (r: usize)
    requires
        op_slab_view(*s).dom().finite(),
    ensures
        r == op_slab_view(*s).dom().len(),
{
    s.len()
}

/// Token allocator with O(1) allocation and lookup: the slab key is the
/// token, so a token stays correlated to its operation across slot reuse.
pub struct TokenAllocator {
    /// The slab of in-flight operations.
    pub ops: slab::Slab<OpType>,
}

impl TokenAllocator {
    /// The allocator's contents by token.
    pub open spec fn view(self) -> Map<usize, OpType> {
        op_slab_view(self.ops)
    }

    /// Well-formedness: finitely many live tokens.
    pub open spec fn wf(self) -> bool {
        self.view().dom().finite()
    }

    /// A new allocator with room for `capacity` in-flight operations.
    pub fn new(capacity: usize) -> (r: Self)
        ensures
            r.wf(),
            (r.view() == Map::<usize, OpType>::empty()),
    {
        TokenAllocator { ops: op_slab_new(capacity) }
    }

    /// Allocate a token for an operation; the token was not live before.
    pub fn alloc_token(&mut self, op: OpType) -> (token: u64)
        requires
            old(self).wf(),
        ensures
            final(self).wf(),
            token <= usize::MAX,
            !old(self).view().dom().contains(token as usize),
            final(self).view() == old(self).view().insert(token as usize, op),
    {
        let k = op_slab_insert(&mut self.ops, op);
        proof {
            assert(self.view().dom() =~= old(self).view().dom().insert(k));
        }
        k as u64
    }

    /// The operation a live token names.
    pub fn get(&self, token: u64) -> (r: Option<OpType>)
        ensures
            match r {
                Some(op) => {
                    &&& token <= usize::MAX
                    &&& self.view().dom().contains(token as usize)
                    &&& op == self.view()[token as usize]
                },
                None => token > usize::MAX
                    || !self.view().dom().contains(token as usize),
            },
    {
        if token > usize::MAX as u64 {
            return None;
        }
        match op_slab_get(&self.ops, token as usize) {
            Some(op) => Some(*op),
            None => None,
        }
    }

    /// Free a live token and return its operation; `None` when the token is
    /// not live.
    pub fn free(&mut self, token: u64) -> (r: Option<OpType>)
        requires
            old(self).wf(),
        ensures
            final(self).wf(),
            match r {
                Some(op) => {
                    &&& token <= usize::MAX
                    &&& old(self).view().dom().contains(token as usize)
                    &&& op == old(self).view()[token as usize]
                    &&& final(self).view() == old(self).view().remove(token as usize)
                },
                None => {
                    &&& (token > usize::MAX
                        || !old(self).view().dom().contains(token as usize))
                    &&& final(self).view() == old(self).view()
                },
            },
    {
        if token > usize::MAX as u64 {
            return None;
        }
        let idx = token as usize;
        if op_slab_contains(&self.ops, idx) {
            let op = op_slab_remove(&mut self.ops, idx);
            proof {
                assert(self.view().dom() =~= old(self).view().dom().remove(idx));
            }
            Some(op)
        } else {
            None
        }
    }

    /// Number of live tokens.
    pub fn len(&self) -> (r: usize)
        requires
            self.wf(),
        ensures
            r == self.view().dom().len(),
    {
        op_slab_len(&self.ops)
    }

    /// Whether no token is live.
    pub fn is_empty(&self) -> (r: bool)
        requires
            self.wf(),
        ensures
            r == (self.view().dom().len() == 0),
    {
        self.len() == 0
    }
}

} // verus!
