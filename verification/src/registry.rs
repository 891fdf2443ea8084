//! Connection registry: the process-wide directory of live connections,
//! plus the per-connection records it holds.
//!
//! The registry is the only shared mutable state of the bridge. Components
//! hold connection ids, never references: everything routes through lookup,
//! so eviction never races a stale reference. Removing a connection from
//! the registry is the single cancellation signal for its tasks. A counted
//! admission limit bounds the number of live connections.

use vstd::prelude::*;
use vstd::hash_map::HashMapWithView;
use crate::keepalive::KeepAlive;

verus! {

broadcast use
    vstd::hash_map::group_hash_map_axioms,
    vstd::std_specs::hash::axiom_u128_obeys_hash_table_key_model,
;

/// Admission limit: live connections at any one time.
pub const MAX_CONNECTIONS: usize = 10_000;

/// Lifecycle state of a connection.
#[derive(Clone, Copy, Debug, PartialEq, Eq, Structural)]
pub enum ConnState {
    /// Accepted and idle between prompts.
    Active,
    /// A prompt's upstream call is in flight.
    AwaitingUpstream,
    /// A close was requested; teardown is under way.
    Closing,
    /// Torn down.
    Closed,
}

/// Per-connection accounting: identity, arrival time, and delivery
/// counters.
pub struct ClientInfo {
    /// Identifier assigned at accept time; random, 128 bits.
    pub id: u128,
    /// Accept time, in milliseconds on the caller's monotonic clock.
    pub start_ms: u64,
    /// Path of the request that opened the connection.
    pub request_path: String,
    /// Peer address, as text.
    pub client_ip: String,
    /// Payload chunks delivered so far.
    pub chunks_sent: usize,
    /// Payload bytes delivered so far.
    pub bytes_sent: usize,
}

impl ClientInfo {
    /// A fresh record: the id and the clock reading are supplied by the
    /// caller, the counters start at zero.
    pub fn new(id: u128, path: &str, ip: &str, now_ms: u64) -> (r: Self)
        ensures
            r.id == id,
            r.start_ms == now_ms,
            r.request_path@ == path@,
            r.client_ip@ == ip@,
            r.chunks_sent == 0,
            r.bytes_sent == 0,
    {
        ClientInfo {
            id,
            start_ms: now_ms,
            request_path: path.to_owned(),
            client_ip: ip.to_owned(),
            chunks_sent: 0,
            bytes_sent: 0,
        }
    }

    /// Count one delivered chunk of `bytes` bytes; returns the new totals.
    pub fn increment_chunks(&mut self, bytes: usize) -> (r: (usize, usize))
        requires
            old(self).chunks_sent < usize::MAX,
            old(self).bytes_sent + bytes <= usize::MAX,
        ensures
            final(self).chunks_sent == old(self).chunks_sent + 1,
            final(self).bytes_sent == old(self).bytes_sent + bytes,
            r.0 == final(self).chunks_sent,
            r.1 == final(self).bytes_sent,
            final(self).id == old(self).id,
            final(self).start_ms == old(self).start_ms,
            final(self).request_path == old(self).request_path,
            final(self).client_ip == old(self).client_ip,
    {
        self.chunks_sent = self.chunks_sent + 1;
        self.bytes_sent = self.bytes_sent + bytes;
        (self.chunks_sent, self.bytes_sent)
    }

    /// Milliseconds since the connection was accepted, at clock reading
    /// `now_ms`.
    pub fn duration_ms(&self, now_ms: u64) -> (r: u128)
        requires
            self.start_ms <= now_ms,
        ensures
            r == now_ms - self.start_ms,
    {
        (now_ms - self.start_ms) as u128
    }
}

/// One live connection, as the registry holds it.
pub struct Connection {
    /// Lifecycle state.
    pub state: ConnState,
    /// Idle timer, reset by every inbound byte.
    pub timer: KeepAlive,
    /// Accounting record.
    pub info: ClientInfo,
}

/// The registry could not accept a connection.
#[derive(Clone, Copy, Debug, PartialEq, Eq, Structural)]
pub enum RegistryError {
    /// The id is already present; ids must be generated to avoid
    /// collision.
    AlreadyRegistered,
    /// The admission limit is reached.
    AtCapacity,
}

/// Directory of live connections, keyed by connection id.
pub struct Registry {
    map: HashMapWithView<u128, Connection>,
}

impl View for Registry {
    type V = Map<u128, Connection>;

    closed spec fn view(&self) -> Map<u128, Connection> {
        self.map@
    }
}

impl Registry {
    /// The registry never exceeds the admission limit.
    pub open spec fn wf(&self) -> bool {
        self@.dom().finite() && self@.len() <= MAX_CONNECTIONS
    }

    pub fn new() -> (r: Self)
        ensures
            r@ == Map::<u128, Connection>::empty(),
            r.wf(),
    {
        Registry { map: HashMapWithView::new() }
    }

    /// How many connections are live.
    pub fn len(&self) -> (r: usize)
        ensures
            r == self@.len(),
    {
        self.map.len()
    }

    /// Admit a connection under a fresh id: refused when the id is already
    /// present or the admission limit is reached, and the directory is
    /// then unchanged.
    pub fn register(&mut self, id: u128, conn: Connection) -> (r: Result<(), RegistryError>)
        requires
            old(self).wf(),
        ensures
            final(self).wf(),
            old(self)@.contains_key(id) ==> r == Result::<(), RegistryError>::Err(
                RegistryError::AlreadyRegistered,
            ) && final(self)@ == old(self)@,
            !old(self)@.contains_key(id) && old(self)@.len() >= MAX_CONNECTIONS ==> r
                == Result::<(), RegistryError>::Err(RegistryError::AtCapacity) && final(self)@
                == old(self)@,
            !old(self)@.contains_key(id) && old(self)@.len() < MAX_CONNECTIONS ==> r
                == Result::<(), RegistryError>::Ok(()) && final(self)@ == old(self)@.insert(
                id,
                conn,
            ),
    {
        if self.map.contains_key(&id) {
            return Err(RegistryError::AlreadyRegistered);
        }
        if self.map.len() >= MAX_CONNECTIONS {
            return Err(RegistryError::AtCapacity);
        }
        self.map.insert(id, conn);
        proof {
            vstd::map::axiom_map_insert_domain::<u128, Connection>(old(self)@, id, conn);
        }
        Ok(())
    }

    /// Route to a connection: the record under this id, if it is live.
    pub fn lookup(&self, id: u128) -> (r: Option<&Connection>)
        ensures
            match r {
                Some(c) => self@.contains_key(id) && *c == self@[id],
                None => !self@.contains_key(id),
            },
    {
        self.map.get(&id)
    }

    /// Record inbound activity on a live connection: its idle timer is
    /// reset to `now` and nothing else changes. The clock is monotonic.
    pub fn touch(&mut self, id: u128, now: u64) -> (r: bool)
        requires
            old(self).wf(),
            old(self)@.contains_key(id) ==> old(self)@[id].timer.last_active <= now,
        ensures
            final(self).wf(),
            r == old(self)@.contains_key(id),
            r ==> final(self)@ == old(self)@.insert(
                id,
                (Connection {
                    timer: KeepAlive { last_active: now },
                    ..old(self)@[id]
                }),
            ),
            !r ==> final(self)@ == old(self)@,
    {
        let taken = self.map.remove(&id);
        match taken {
            Some(mut c) => {
                c.timer.record_activity(now);
                self.map.insert(id, c);
                proof {
                    assert(final(self)@ =~= old(self)@.insert(
                        id,
                        (Connection {
                            timer: KeepAlive { last_active: now },
                            ..old(self)@[id]
                        }),
                    ));
                    assert(final(self)@.dom() =~= old(self)@.dom().insert(id));
                    assert(old(self)@.dom().insert(id) =~= old(self)@.dom());
                }
                true
            },
            None => false,
        }
    }

    /// Move a live connection to a new lifecycle state.
    pub fn set_state(&mut self, id: u128, st: ConnState) -> (r: bool)
        requires
            old(self).wf(),
        ensures
            final(self).wf(),
            r == old(self)@.contains_key(id),
            r ==> final(self)@ == old(self)@.insert(
                id,
                (Connection { state: st, ..old(self)@[id] }),
            ),
            !r ==> final(self)@ == old(self)@,
    {
        let taken = self.map.remove(&id);
        match taken {
            Some(mut c) => {
                c.state = st;
                self.map.insert(id, c);
                proof {
                    assert(final(self)@ =~= old(self)@.insert(
                        id,
                        (Connection { state: st, ..old(self)@[id] }),
                    ));
                    assert(final(self)@.dom() =~= old(self)@.dom().insert(id));
                    assert(old(self)@.dom().insert(id) =~= old(self)@.dom());
                }
                true
            },
            None => false,
        }
    }

    /// Account one delivered payload chunk of `bytes` bytes against a live
    /// connection; returns the new totals. Nothing else changes, and a
    /// counter at its bound stays put.
    pub fn count_chunk(&mut self, id: u128, bytes: usize) -> (r: Option<(usize, usize)>)
        requires
            old(self).wf(),
        ensures
            final(self).wf(),
            r is Some <==> old(self)@.contains_key(id) && old(self)@[id].info.chunks_sent
                < usize::MAX && old(self)@[id].info.bytes_sent + bytes <= usize::MAX,
            r matches Some((chunks, total)) ==> {
                &&& chunks == old(self)@[id].info.chunks_sent + 1
                &&& total == old(self)@[id].info.bytes_sent + bytes
                &&& final(self)@ == old(self)@.insert(
                    id,
                    (Connection {
                        info: (ClientInfo {
                            chunks_sent: chunks,
                            bytes_sent: total,
                            ..old(self)@[id].info
                        }),
                        ..old(self)@[id]
                    }),
                )
            },
            r is None ==> final(self)@ == old(self)@,
    {
        let taken = self.map.remove(&id);
        match taken {
            Some(mut c) => {
                if c.info.chunks_sent < usize::MAX && bytes <= usize::MAX - c.info.bytes_sent {
                    let totals = c.info.increment_chunks(bytes);
                    self.map.insert(id, c);
                    proof {
                        assert(final(self)@ =~= old(self)@.insert(
                            id,
                            (Connection {
                                info: (ClientInfo {
                                    chunks_sent: totals.0,
                                    bytes_sent: totals.1,
                                    ..old(self)@[id].info
                                }),
                                ..old(self)@[id]
                            }),
                        ));
                        assert(final(self)@.dom() =~= old(self)@.dom().insert(id));
                        assert(old(self)@.dom().insert(id) =~= old(self)@.dom());
                    }
                    Some(totals)
                } else {
                    self.map.insert(id, c);
                    proof {
                        assert(final(self)@ =~= old(self)@);
                        assert(final(self)@.dom() =~= old(self)@.dom());
                    }
                    None
                }
            },
            None => None,
        }
    }

    /// One keep-alive tick for a live connection: an idle one is evicted
    /// from the directory — the single cancellation signal for its tasks —
    /// and a live one is probed; the directory is otherwise unchanged.
    pub fn tick(&mut self, id: u128, now: u64) -> (r: Option<crate::keepalive::TickAction>)
        requires
            old(self).wf(),
            old(self)@.contains_key(id) ==> old(self)@[id].timer.last_active <= now,
        ensures
            final(self).wf(),
            r is Some <==> old(self)@.contains_key(id),
            r matches Some(a) ==> a == crate::keepalive::spec_tick_action(
                old(self)@[id].timer.last_active,
                now,
            ),
            r == Some(crate::keepalive::TickAction::Evict) ==> final(self)@ == old(
                self,
            )@.remove(id),
            r != Some(crate::keepalive::TickAction::Evict) ==> final(self)@ == old(self)@,
    {
        let action = match self.map.get(&id) {
            Some(c) => c.timer.on_tick(now),
            None => {
                return None;
            },
        };
        if action == crate::keepalive::TickAction::Evict {
            self.map.remove(&id);
            proof {
                assert(final(self)@.dom() =~= old(self)@.dom().remove(id));
            }
        }
        Some(action)
    }

    /// Evict or close out a connection; idempotent, and says whether a
    /// connection was actually removed, so cleanup is never run twice.
    pub fn deregister(&mut self, id: u128) -> (r: bool)
        requires
            old(self).wf(),
        ensures
            final(self).wf(),
            r == old(self)@.contains_key(id),
            final(self)@ == old(self)@.remove(id),
    {
        let out = self.map.remove(&id);
        proof {
            if !old(self)@.contains_key(id) {
                assert(old(self)@.remove(id) =~= old(self)@);
            }
            assert(final(self)@.dom() =~= old(self)@.dom().remove(id));
        }
        out.is_some()
    }
}

} // verus!