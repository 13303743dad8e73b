//! The event dispatcher's per-peer connection bookkeeping.
//!
//! One record per connected peer: created on the connect event, updated
//! when the maximum transfer unit is renegotiated, destroyed on the
//! disconnect event.

use vstd::prelude::*;
use vstd::pervasive::VecAdditionalExecFns;

verus! {

/// The maximum transfer unit every connection starts with, before any
/// renegotiation.
pub const DEFAULT_MTU: u16 = 23;

/// Per-peer state, keyed by the driver's connection identifier.
#[derive(Clone, Copy, Debug, PartialEq, Eq, Structural)]
pub struct ConnectionRecord {
    /// The driver's identifier for this connection.
    pub conn_id: u16,
    /// The peer's 48-bit device address.
    pub addr: u64,
    /// The negotiated maximum transfer unit.
    pub mtu: u16,
}

/// No two records share a connection identifier.
pub open spec fn ids_distinct(s: Seq<ConnectionRecord>) -> bool {
    forall|i: int, j: int|
        0 <= i < j < s.len() ==> (#[trigger] s[i]).conn_id != (#[trigger] s[j]).conn_id
}

/// No two records share a peer address.
pub open spec fn addrs_distinct(s: Seq<ConnectionRecord>) -> bool {
    forall|i: int, j: int|
        0 <= i < j < s.len() ==> (#[trigger] s[i]).addr != (#[trigger] s[j]).addr
}

/// The records left once every record of peer `addr` is dropped.
pub open spec fn drop_addr(s: Seq<ConnectionRecord>, addr: u64) -> Seq<ConnectionRecord>
    decreases s.len(),
{
    if s.len() == 0 {
        Seq::empty()
    } else {
        let rest = drop_addr(s.drop_last(), addr);
        if s.last().addr == addr {
            rest
        } else {
            rest.push(s.last())
        }
    }
}

/// The records left once the records of peer `addr` and of connection
/// `conn_id` are dropped, making room for a fresh record of both.
pub open spec fn drop_peer(s: Seq<ConnectionRecord>, conn_id: u16, addr: u64) -> Seq<
    ConnectionRecord,
>
    decreases s.len(),
{
    if s.len() == 0 {
        Seq::empty()
    } else {
        let rest = drop_peer(s.drop_last(), conn_id, addr);
        if s.last().addr == addr || s.last().conn_id == conn_id {
            rest
        } else {
            rest.push(s.last())
        }
    }
}

/// Some record carries connection identifier `conn_id`.
pub open spec fn has_conn(s: Seq<ConnectionRecord>, conn_id: u16) -> bool {
    exists|i: int| 0 <= i < s.len() && (#[trigger] s[i]).conn_id == conn_id
}

/// Some record carries peer address `addr`.
pub open spec fn has_addr(s: Seq<ConnectionRecord>, addr: u64) -> bool {
    exists|i: int| 0 <= i < s.len() && (#[trigger] s[i]).addr == addr
}

proof fn lemma_drop_addr_take_step(s: Seq<ConnectionRecord>, addr: u64, i: int)
    requires
        0 <= i < s.len(),
    ensures
        drop_addr(s.take(i + 1), addr) == if s[i].addr == addr {
            drop_addr(s.take(i), addr)
        } else {
            drop_addr(s.take(i), addr).push(s[i])
        },
{
    assert(s.take(i + 1).drop_last() =~= s.take(i));
    assert(s.take(i + 1).last() == s[i]);
}

proof fn lemma_drop_peer_take_step(s: Seq<ConnectionRecord>, conn_id: u16, addr: u64, i: int)
    requires
        0 <= i < s.len(),
    ensures
        drop_peer(s.take(i + 1), conn_id, addr) == if s[i].addr == addr || s[i].conn_id
            == conn_id {
            drop_peer(s.take(i), conn_id, addr)
        } else {
            drop_peer(s.take(i), conn_id, addr).push(s[i])
        },
{
    assert(s.take(i + 1).drop_last() =~= s.take(i));
    assert(s.take(i + 1).last() == s[i]);
}

/// What `drop_peer` keeps: records of other peers and connections, each
/// from the original sequence, still pairwise distinct.
proof fn lemma_drop_peer_props(s: Seq<ConnectionRecord>, conn_id: u16, addr: u64)
    requires
        ids_distinct(s),
        addrs_distinct(s),
    ensures
        ids_distinct(drop_peer(s, conn_id, addr)),
        addrs_distinct(drop_peer(s, conn_id, addr)),
        forall|a: int|
            #![trigger drop_peer(s, conn_id, addr)[a]]
            0 <= a < drop_peer(s, conn_id, addr).len() ==> {
                &&& drop_peer(s, conn_id, addr)[a].addr != addr
                &&& drop_peer(s, conn_id, addr)[a].conn_id != conn_id
                &&& exists|i0: int|
                    0 <= i0 < s.len() && drop_peer(s, conn_id, addr)[a] == #[trigger] s[i0]
            },
    decreases s.len(),
{
    if s.len() > 0 {
        let prev = s.drop_last();
        lemma_drop_peer_props(prev, conn_id, addr);
        let rest = drop_peer(prev, conn_id, addr);
        let r = drop_peer(s, conn_id, addr);
        assert forall|a: int| 0 <= a < r.len() implies {
            &&& (#[trigger] r[a]).addr != addr
            &&& r[a].conn_id != conn_id
            &&& exists|i0: int| 0 <= i0 < s.len() && r[a] == #[trigger] s[i0]
        } by {
            if a < rest.len() {
                assert(r[a] == rest[a]);
                let i0 = choose|i0: int| 0 <= i0 < prev.len() && rest[a] == #[trigger] prev[i0];
                assert(r[a] == s[i0]);
            } else {
                assert(r[a] == s[s.len() - 1]);
            }
        }
        if !(s.last().addr == addr || s.last().conn_id == conn_id) {
            assert forall|a: int, b: int| 0 <= a < b < r.len() implies (#[trigger] r[a]).conn_id
                != (#[trigger] r[b]).conn_id && r[a].addr != r[b].addr by {
                if b == rest.len() {
                    let i0 = choose|i0: int|
                        0 <= i0 < prev.len() && rest[a] == #[trigger] prev[i0];
                    assert(r[a] == s[i0]);
                    assert(r[b] == s[s.len() - 1]);
                    assert(s[i0].conn_id != s[s.len() - 1].conn_id);
                    assert(s[i0].addr != s[s.len() - 1].addr);
                } else {
                    assert(r[a] == rest[a] && r[b] == rest[b]);
                }
            }
        }
    }
}

/// What `drop_addr` keeps: records of other peers, each from the
/// original sequence, still pairwise distinct.
proof fn lemma_drop_addr_props(s: Seq<ConnectionRecord>, addr: u64)
    requires
        ids_distinct(s),
        addrs_distinct(s),
    ensures
        ids_distinct(drop_addr(s, addr)),
        addrs_distinct(drop_addr(s, addr)),
        forall|a: int|
            #![trigger drop_addr(s, addr)[a]]
            0 <= a < drop_addr(s, addr).len() ==> {
                &&& drop_addr(s, addr)[a].addr != addr
                &&& exists|i0: int| 0 <= i0 < s.len() && drop_addr(s, addr)[a] == #[trigger] s[i0]
            },
    decreases s.len(),
{
    if s.len() > 0 {
        let prev = s.drop_last();
        lemma_drop_addr_props(prev, addr);
        let rest = drop_addr(prev, addr);
        let r = drop_addr(s, addr);
        assert forall|a: int| 0 <= a < r.len() implies {
            &&& (#[trigger] r[a]).addr != addr
            &&& exists|i0: int| 0 <= i0 < s.len() && r[a] == #[trigger] s[i0]
        } by {
            if a < rest.len() {
                assert(r[a] == rest[a]);
                let i0 = choose|i0: int| 0 <= i0 < prev.len() && rest[a] == #[trigger] prev[i0];
                assert(r[a] == s[i0]);
            } else {
                assert(r[a] == s[s.len() - 1]);
            }
        }
        if s.last().addr != addr {
            assert forall|a: int, b: int| 0 <= a < b < r.len() implies (#[trigger] r[a]).conn_id
                != (#[trigger] r[b]).conn_id && r[a].addr != r[b].addr by {
                if b == rest.len() {
                    let i0 = choose|i0: int|
                        0 <= i0 < prev.len() && rest[a] == #[trigger] prev[i0];
                    assert(r[a] == s[i0]);
                    assert(r[b] == s[s.len() - 1]);
                    assert(s[i0].conn_id != s[s.len() - 1].conn_id);
                    assert(s[i0].addr != s[s.len() - 1].addr);
                } else {
                    assert(r[a] == rest[a] && r[b] == rest[b]);
                }
            }
        }
    }
}

/// The single entry point's connection-state keeper: the records of every
/// currently connected peer, in connection order.
pub struct EventDispatcher {
    connections: Vec<ConnectionRecord>,
}

impl View for EventDispatcher {
    type V = Seq<ConnectionRecord>;

    closed spec fn view(&self) -> Seq<ConnectionRecord> {
        self.connections@
    }
}

impl EventDispatcher {
    /// Connection identifiers and peer addresses are each held by at most
    /// one record.
    pub open spec fn wf(self) -> bool {
        ids_distinct(self@) && addrs_distinct(self@)
    }

    pub fn new() -> (d: EventDispatcher)
        ensures
            d.wf(),
            d@ == Seq::<ConnectionRecord>::empty(),
    {
        let d = EventDispatcher { connections: Vec::new() };
        proof {
            assert(d@ =~= Seq::<ConnectionRecord>::empty());
        }
        d
    }

    /// The records of every connected peer, in connection order.
    pub fn records(&self) -> (r: &Vec<ConnectionRecord>)
        ensures
            r@ == self@,
    {
        &self.connections
    }

    /// How many peers are connected.
    pub fn connection_count(&self) -> (n: usize)
        ensures
            n == self@.len(),
    {
        self.connections.len()
    }

    /// A peer connected: any stale record of the same connection or
    /// address is dropped and a fresh record is created with the default
    /// maximum transfer unit.
    pub fn peer_connected(&mut self, conn_id: u16, addr: u64)
        requires
            old(self).wf(),
        ensures
            final(self).wf(),
            final(self)@ == drop_peer(old(self)@, conn_id, addr).push(
                ConnectionRecord { conn_id, addr, mtu: DEFAULT_MTU },
            ),
    {
        let ghost s0 = self@;
        let mut kept: Vec<ConnectionRecord> = Vec::new();
        let mut i: usize = 0;
        proof {
            assert(s0.take(0) =~= Seq::<ConnectionRecord>::empty());
            assert(kept@ =~= Seq::<ConnectionRecord>::empty());
        }
        while i < self.connections.len()
            invariant
                self@ == s0,
                self.connections@ == s0,
                i <= s0.len(),
                kept@ == drop_peer(s0.take(i as int), conn_id, addr),
            decreases s0.len() - i,
        {
            proof {
                lemma_drop_peer_take_step(s0, conn_id, addr, i as int);
            }
            let rec = self.connections[i];
            if !(rec.addr == addr || rec.conn_id == conn_id) {
                kept.push(rec);
            }
            i = i + 1;
        }
        proof {
            assert(s0.take(s0.len() as int) =~= s0);
            lemma_drop_peer_props(s0, conn_id, addr);
        }
        kept.push(ConnectionRecord { conn_id, addr, mtu: DEFAULT_MTU });
        self.connections = kept;
        proof {
            let k = drop_peer(s0, conn_id, addr);
            assert forall|a: int, b: int| 0 <= a < b < self@.len()
                implies (#[trigger] self@[a]).conn_id != (#[trigger] self@[b]).conn_id && (
            self@[a]).addr != (self@[b]).addr by {
                if b < k.len() {
                    assert(self@[a] == k[a] && self@[b] == k[b]);
                } else {
                    assert(self@[a] == k[a]);
                    assert(k[a].conn_id != conn_id && k[a].addr != addr);
                }
            }
        }
    }

    /// A peer disconnected: its record is destroyed.  Returns whether a
    /// record existed, so the caller can decide about resuming
    /// advertising.
    pub fn peer_disconnected(&mut self, addr: u64) -> (removed: bool)
        requires
            old(self).wf(),
        ensures
            final(self).wf(),
            final(self)@ == drop_addr(old(self)@, addr),
            removed == has_addr(old(self)@, addr),
    {
        let ghost s0 = self@;
        let mut kept: Vec<ConnectionRecord> = Vec::new();
        let mut removed = false;
        let mut i: usize = 0;
        proof {
            assert(s0.take(0) =~= Seq::<ConnectionRecord>::empty());
            assert(kept@ =~= Seq::<ConnectionRecord>::empty());
        }
        while i < self.connections.len()
            invariant
                self@ == s0,
                self.connections@ == s0,
                i <= s0.len(),
                kept@ == drop_addr(s0.take(i as int), addr),
                removed == exists|i0: int| 0 <= i0 < i && (#[trigger] s0[i0]).addr == addr,
            decreases s0.len() - i,
        {
            proof {
                lemma_drop_addr_take_step(s0, addr, i as int);
            }
            let rec = self.connections[i];
            if rec.addr == addr {
                removed = true;
                proof {
                    assert((#[trigger] s0[i as int]).addr == addr);
                }
            } else {
                kept.push(rec);
            }
            i = i + 1;
        }
        proof {
            assert(s0.take(s0.len() as int) =~= s0);
            lemma_drop_addr_props(s0, addr);
        }
        self.connections = kept;
        removed
    }

    /// A connection renegotiated its maximum transfer unit.  Returns
    /// whether the connection was known.
    pub fn mtu_updated(&mut self, conn_id: u16, mtu: u16) -> (found: bool)
        requires
            old(self).wf(),
        ensures
            final(self).wf(),
            found == has_conn(old(self)@, conn_id),
            final(self)@.len() == old(self)@.len(),
            forall|j: int|
                0 <= j < old(self)@.len() && (#[trigger] old(self)@[j]).conn_id != conn_id
                    ==> final(self)@[j] == old(self)@[j],
            forall|j: int|
                0 <= j < old(self)@.len() && (#[trigger] old(self)@[j]).conn_id == conn_id
                    ==> final(self)@[j] == (ConnectionRecord {
                    conn_id,
                    addr: old(self)@[j].addr,
                    mtu,
                }),
    {
        let mut i: usize = 0;
        while i < self.connections.len()
            invariant
                self.connections@.len() == old(self)@.len(),
                self@ == self.connections@,
                i <= old(self)@.len(),
                old(self).wf(),
                forall|j: int| i <= j < old(self)@.len() ==> self.connections@[j] == old(self)@[j],
                forall|j: int|
                    0 <= j < i ==> (#[trigger] old(self)@[j]).conn_id != conn_id
                        && self.connections@[j] == old(self)@[j],
            decreases old(self)@.len() - i,
        {
            let rec = self.connections[i];
            if rec.conn_id == conn_id {
                proof {
                    assert((#[trigger] old(self)@[i as int]).conn_id == conn_id);
                }
                self.connections.set(i, ConnectionRecord { conn_id, addr: rec.addr, mtu });
                proof {
                    assert forall|a: int, b: int| 0 <= a < b < self@.len()
                        implies (#[trigger] self@[a]).conn_id != (#[trigger] self@[b]).conn_id && (
                    self@[a]).addr != (self@[b]).addr by {
                        assert(old(self)@[a].conn_id != old(self)@[b].conn_id);
                        assert(old(self)@[a].addr != old(self)@[b].addr);
                    }
                    assert forall|j: int|
                        0 <= j < old(self)@.len() && (#[trigger] old(self)@[j]).conn_id == conn_id
                            implies self@[j] == (ConnectionRecord {
                            conn_id,
                            addr: old(self)@[j].addr,
                            mtu,
                        }) by {
                        if j != i {
                            if i < j {
                                assert(old(self)@[i as int].conn_id != old(self)@[j].conn_id);
                            } else {
                                assert(old(self)@[j].conn_id != old(self)@[i as int].conn_id);
                            }
                        }
                    }
                }
                return true;
            }
            i = i + 1;
        }
        proof {
            assert(self@ =~= old(self)@);
            assert(!has_conn(old(self)@, conn_id)) by {
                if has_conn(old(self)@, conn_id) {
                    let j = choose|j: int|
                        0 <= j < old(self)@.len() && (#[trigger] old(self)@[j]).conn_id == conn_id;
                    assert(old(self)@[j].conn_id != conn_id);
                }
            }
        }
        false
    }
}

} // verus!
