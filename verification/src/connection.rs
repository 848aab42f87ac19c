//! Connection state machine: the control-plane phases of a connection's
//! life, the data-plane read/write alternation while it is established, and
//! a slab-indexed registry of active connections with a hard cap.

use vstd::prelude::*;
use crate::request::Protocol;

verus! {

/// Data-plane state of an established connection: it is reading or it is
/// writing, never both.
#[derive(Debug, Clone, Copy, PartialEq, Eq, Structural)]
pub enum DataState {
    /// Waiting for data to be read.
    Reading {
        /// Bytes already read into the buffer.
        filled: usize,
    },
    /// Writing response data.
    Writing {
        /// Buffer index holding the response in the write pool.
        buf_idx: usize,
        /// Bytes already written.
        written: usize,
        /// Total bytes to write.
        total: usize,
    },
}

impl DataState {
    /// Initial reading state.
    pub fn reading() -> (r: Self)
        ensures
            r == (DataState::Reading { filled: 0usize }),
    {
        DataState::Reading { filled: 0 }
    }

    /// Reading state with bytes already accumulated.
    pub fn reading_with(filled: usize) -> (r: Self)
        ensures
            r == (DataState::Reading { filled }),
    {
        DataState::Reading { filled }
    }

    /// Writing state at the start of a response.
    pub fn writing(buf_idx: usize, total: usize) -> (r: Self)
        ensures
            r == (DataState::Writing { buf_idx, written: 0usize, total }),
    {
        DataState::Writing { buf_idx, written: 0, total }
    }
}

/// Control-plane phase of a connection's life.
#[derive(Debug, Clone, Copy, PartialEq, Eq, Structural)]
pub enum ConnPhase {
    /// Accepted, not yet ready for data.
    Accepting,
    /// Handshake in progress.
    Handshaking,
    /// Established: processing requests in the given data-plane state.
    Established(DataState),
    /// Being closed; terminal.
    Closing,
}

impl ConnPhase {
    /// An established connection that starts out reading.
    pub fn established() -> (r: Self)
        ensures
            r == ConnPhase::Established(DataState::Reading { filled: 0usize }),
    {
        ConnPhase::Established(DataState::reading())
    }

    /// Whether the connection is established.
    pub fn is_established(&self) -> (r: bool)
        ensures
            r == (self is Established),
    {
        match self {
            ConnPhase::Established(_) => true,
            _ => false,
        }
    }

    /// Whether the connection is closing.
    pub fn is_closing(&self) -> (r: bool)
        ensures
            r == (self is Closing),
    {
        match self {
            ConnPhase::Closing => true,
            _ => false,
        }
    }

    /// The data-plane state, when established.
    pub fn data_state(&self) -> (r: Option<&DataState>)
        ensures
            match r {
                Some(d) => self is Established && *d == self->Established_0,
                None => !(self is Established),
            },
    {
        match self {
            ConnPhase::Established(state) => Some(state),
            _ => None,
        }
    }

    /// The data-plane state by value, when established.
    pub fn data_state_value(&self) -> (r: Option<DataState>)
        ensures
            match r {
                Some(d) => self is Established && d == self->Established_0,
                None => !(self is Established),
            },
    {
        match self {
            ConnPhase::Established(state) => Some(*state),
            _ => None,
        }
    }
}

/// One client connection: its socket descriptor, its phase, and the wire
/// protocol it speaks.
#[derive(Debug, Clone, Copy, PartialEq, Eq, Structural)]
pub struct Connection {
    /// Raw socket descriptor.
    pub fd: i32,
    /// Current phase (control plane, with the data plane inside).
    pub phase: ConnPhase,
    /// Protocol spoken on this connection.
    pub protocol: Protocol,
}

impl Connection {
    /// A new connection, established and reading: the usual state straight
    /// after accept.
    pub fn new(fd: i32, protocol: Protocol) -> (r: Self)
        ensures
            r.fd == fd,
            r.protocol == protocol,
            r.phase == ConnPhase::Established(DataState::Reading { filled: 0usize }),
    {
        Connection { fd, phase: ConnPhase::established(), protocol }
    }

    /// A new connection that needs setup before it is established.
    pub fn new_accepting(fd: i32, protocol: Protocol) -> (r: Self)
        ensures
            r.fd == fd,
            r.protocol == protocol,
            r.phase == ConnPhase::Accepting,
    {
        Connection { fd, phase: ConnPhase::Accepting, protocol }
    }

    /// Move to the established phase, reading.
    pub fn establish(&mut self)
        ensures
            final(self).fd == old(self).fd,
            final(self).protocol == old(self).protocol,
            final(self).phase == ConnPhase::Established(DataState::Reading { filled: 0usize }),
    {
        self.phase = ConnPhase::established();
    }

    /// Move an established connection to the writing state for a response of
    /// `total` bytes in buffer `buf_idx`.
    pub fn start_writing(&mut self, buf_idx: usize, total: usize)
        requires
            old(self).phase is Established,
        ensures
            final(self).fd == old(self).fd,
            final(self).protocol == old(self).protocol,
            final(self).phase == ConnPhase::Established(
                DataState::Writing { buf_idx, written: 0usize, total },
            ),
    {
        self.phase = ConnPhase::Established(DataState::writing(buf_idx, total));
    }

    /// Move an established connection back to reading.
    pub fn start_reading(&mut self)
        requires
            old(self).phase is Established,
        ensures
            final(self).fd == old(self).fd,
            final(self).protocol == old(self).protocol,
            final(self).phase == ConnPhase::Established(DataState::Reading { filled: 0usize }),
    {
        self.phase = ConnPhase::Established(DataState::reading());
    }

    /// Mark the connection for closing; terminal.
    pub fn close(&mut self)
        ensures
            final(self).fd == old(self).fd,
            final(self).protocol == old(self).protocol,
            final(self).phase == ConnPhase::Closing,
    {
        self.phase = ConnPhase::Closing;
    }

    /// Whether the connection is established and reading.
    pub fn is_reading(&self) -> (r: bool)
        ensures
            r == (self.phase is Established && self.phase->Established_0 is Reading),
    {
        match self.phase {
            ConnPhase::Established(DataState::Reading { .. }) => true,
            _ => false,
        }
    }

    /// Whether the connection is established and writing.
    pub fn is_writing(&self) -> (r: bool)
        ensures
            r == (self.phase is Established && self.phase->Established_0 is Writing),
    {
        match self.phase {
            ConnPhase::Established(DataState::Writing { .. }) => true,
            _ => false,
        }
    }

    /// The write progress `(buffer, written, total)`, when writing.
    pub fn write_state(&self) -> (r: Option<(usize, usize, usize)>)
        ensures
            match r {
                Some(t) => {
                    &&& self.phase is Established
                    &&& self.phase->Established_0 == (DataState::Writing {
                        buf_idx: t.0, written: t.1, total: t.2,
                    })
                },
                None => !(self.phase is Established
                    && self.phase->Established_0 is Writing),
            },
    {
        match self.phase {
            ConnPhase::Established(DataState::Writing { buf_idx, written, total }) =>
                Some((buf_idx, written, total)),
            _ => None,
        }
    }

    /// Record `bytes` more written; true when the response is complete. A
    /// connection that is not writing is unchanged.
    pub fn advance_write(&mut self, bytes: usize) -> (complete: bool)
        requires
            (old(self).phase is Established && old(self).phase->Established_0 is Writing)
                ==> old(self).phase->Established_0->Writing_written + bytes <= usize::MAX,
        ensures
            final(self).fd == old(self).fd,
            final(self).protocol == old(self).protocol,
            if old(self).phase is Established && old(self).phase->Established_0 is Writing {
                &&& final(self).phase == ConnPhase::Established(DataState::Writing {
                    buf_idx: old(self).phase->Established_0->Writing_buf_idx,
                    written: (old(self).phase->Established_0->Writing_written + bytes) as usize,
                    total: old(self).phase->Established_0->Writing_total,
                })
                &&& complete == (old(self).phase->Established_0->Writing_written + bytes
                    >= old(self).phase->Established_0->Writing_total)
            } else {
                &&& final(self).phase == old(self).phase
                &&& !complete
            },
    {
        match self.phase {
            ConnPhase::Established(DataState::Writing { buf_idx, written, total }) => {
                let new_written = written + bytes;
                self.phase = ConnPhase::Established(DataState::Writing {
                    buf_idx,
                    written: new_written,
                    total,
                });
                new_written >= total
            }
            _ => false,
        }
    }
}

#[verifier::external_type_specification]
#[verifier::external_body]
#[verifier::reject_recursive_types(T)]
pub struct ExSlab<T>(slab::Slab<T>);

/// The entries a connection slab holds, by key.
pub uninterp spec fn conn_slab_view(s: slab::Slab<Connection>) -> Map<usize, Connection>;

/// Relies on slab::Slab::with_capacity: a fresh slab holds no entries.
#[verifier::external_body]
fn conn_slab_new(capacity: usize) -> (out: slab::Slab<Connection>)
    ensures
        (conn_slab_view(out) == Map::<usize, Connection>::empty()),
        conn_slab_view(out).dom().finite(),
{
    slab::Slab::with_capacity(capacity)
}

/// Relies on slab::Slab::insert: the value goes into a vacant slot and its
/// key comes back.
#[verifier::external_body]
fn conn_slab_insert(s: &mut slab::Slab<Connection>, c: Connection) -> (k: usize)
    ensures
        !conn_slab_view(*old(s)).dom().contains(k),
        conn_slab_view(*final(s)) == conn_slab_view(*old(s)).insert(k, c),
{
    s.insert(c)
}

/// Relies on slab::Slab::get: the entry under an occupied key.
#[verifier::external_body]
fn conn_slab_get(s: &slab::Slab<Connection>, k: usize) -> (r: Option<&Connection>)
    ensures
        match r {
            Some(c) => conn_slab_view(*s).dom().contains(k) && *c == conn_slab_view(*s)[k],
            None => !conn_slab_view(*s).dom().contains(k),
        },
{
    s.get(k)
}

/// Relies on slab::Slab::get_mut: replace the entry under an occupied key.
#[verifier::external_body]
fn conn_slab_set(s: &mut slab::Slab<Connection>, k: usize, c: Connection)
    requires
        conn_slab_view(*old(s)).dom().contains(k),
    ensures
        conn_slab_view(*final(s)) == conn_slab_view(*old(s)).insert(k, c),
{
    if let Some(slot) = s.get_mut(k) {
        *slot = c;
    }
}

/// Relies on slab::Slab::remove, which panics on a vacant key: the key must
/// be occupied, and its entry comes out.
#[verifier::external_body]
fn conn_slab_remove(s: &mut slab::Slab<Connection>, k: usize) -> (c: Connection)
    requires
        conn_slab_view(*old(s)).dom().contains(k),
    ensures
        c == conn_slab_view(*old(s))[k],
        conn_slab_view(*final(s)) == conn_slab_view(*old(s)).remove(k),
{
    s.remove(k)
}

/// Relies on slab::Slab::contains.
#[verifier::external_body]
fn conn_slab_contains(s: &slab::Slab<Connection>, k: usize) -> (r: bool)
    ensures
        r == conn_slab_view(*s).dom().contains(k),
{
    s.contains(k)
}

/// Relies on slab::Slab::len: the number of occupied slots.
#[verifier::external_body]
fn conn_slab_len(s: &slab::Slab<Connection>) -> (r: usize)
    requires
        conn_slab_view(*s).dom().finite(),
    ensures
        r == conn_slab_view(*s).dom().len(),
{
    s.len()
}

/// Registry of active connections with O(1) insert, lookup and removal and
/// a hard cap.
pub struct ConnectionRegistry {
    /// The slab of active connections.
    pub connections: slab::Slab<Connection>,
    /// The hard cap on how many may be active at once.
    pub max_connections: usize,
}

impl ConnectionRegistry {
    /// The registry's contents, by connection id.
    pub open spec fn view(self) -> Map<usize, Connection> {
        conn_slab_view(self.connections)
    }

    /// Well-formedness: the contents are finite and within the cap.
    pub open spec fn wf(self) -> bool {
        &&& self.view().dom().finite()
        &&& self.view().dom().len() <= self.max_connections
    }

    /// A new registry with the given cap.
    pub fn new(max_connections: usize) -> (r: Self)
        ensures
            r.wf(),
            r.view() == Map::<usize, Connection>::empty(),
            r.max_connections == max_connections,
    {
        ConnectionRegistry {
            connections: conn_slab_new(max_connections),
            max_connections,
        }
    }

    /// Insert a connection; `None` when the registry is at capacity.
    pub fn insert(&mut self, conn: Connection) -> (r: Option<usize>)
        requires
            old(self).wf(),
        ensures
            final(self).wf(),
            final(self).max_connections == old(self).max_connections,
            match r {
                Some(id) => {
                    &&& old(self).view().dom().len() < old(self).max_connections
                    &&& !old(self).view().dom().contains(id)
                    &&& final(self).view() == old(self).view().insert(id, conn)
                },
                None => {
                    &&& old(self).view().dom().len() >= old(self).max_connections
                    &&& final(self).view() == old(self).view()
                },
            },
    {
        if conn_slab_len(&self.connections) >= self.max_connections {
            return None;
        }
        let id = conn_slab_insert(&mut self.connections, conn);
        proof {
            vstd::set_lib::lemma_len_union::<usize>(
                old(self).view().dom(), vstd::prelude::Set::empty().insert(id),
            );
            assert(final(self).view().dom() =~= old(self).view().dom().insert(id));
        }
        Some(id)
    }

    /// The connection under `id`.
    pub fn get(&self, id: usize) -> (r: Option<&Connection>)
        ensures
            match r {
                Some(c) => self.view().dom().contains(id) && *c == self.view()[id],
                None => !self.view().dom().contains(id),
            },
    {
        conn_slab_get(&self.connections, id)
    }

    /// Replace the connection under an occupied `id`; false when vacant.
    pub fn update(&mut self, id: usize, conn: Connection) -> (r: bool)
        requires
            old(self).wf(),
        ensures
            final(self).wf(),
            final(self).max_connections == old(self).max_connections,
            if old(self).view().dom().contains(id) {
                &&& r
                &&& final(self).view() == old(self).view().insert(id, conn)
            } else {
                &&& !r
                &&& final(self).view() == old(self).view()
            },
    {
        if conn_slab_contains(&self.connections, id) {
            conn_slab_set(&mut self.connections, id, conn);
            proof {
                assert(final(self).view().dom() =~= old(self).view().dom());
            }
            true
        } else {
            false
        }
    }

    /// Remove and return the connection under `id`.
    pub fn remove(&mut self, id: usize) -> (r: Option<Connection>)
        requires
            old(self).wf(),
        ensures
            final(self).wf(),
            final(self).max_connections == old(self).max_connections,
            match r {
                Some(c) => {
                    &&& old(self).view().dom().contains(id)
                    &&& c == old(self).view()[id]
                    &&& final(self).view() == old(self).view().remove(id)
                },
                None => {
                    &&& !old(self).view().dom().contains(id)
                    &&& final(self).view() == old(self).view()
                },
            },
    {
        if conn_slab_contains(&self.connections, id) {
            let c = conn_slab_remove(&mut self.connections, id);
            proof {
                assert(old(self).view().dom().remove(id)
                    =~= self.view().dom());
                assert(self.view().dom().len() == old(self).view().dom().len() - 1) by {
                    vstd::set_lib::lemma_len_subset::<usize>(
                        self.view().dom(), old(self).view().dom(),
                    );
                }
            }
            Some(c)
        } else {
            None
        }
    }

    /// Whether a connection exists under `id`.
    pub fn contains(&self, id: usize) -> (r: bool)
        ensures
            r == self.view().dom().contains(id),
    {
        conn_slab_contains(&self.connections, id)
    }

    /// Number of active connections.
    pub fn len(&self) -> (r: usize)
        requires
            self.wf(),
        ensures
            r == self.view().dom().len(),
    {
        conn_slab_len(&self.connections)
    }

    /// Whether no connection is active.
    pub fn is_empty(&self) -> (r: bool)
        requires
            self.wf(),
        ensures
            r == (self.view().dom().len() == 0),
    {
        self.len() == 0
    }

    /// The hard cap.
    pub fn capacity(&self) -> (r: usize)
        ensures
            r == self.max_connections,
    {
        self.max_connections
    }
}

} // verus!
