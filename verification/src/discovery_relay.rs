//! Relay mode for NAT traversal: the server forwards DATA between
//! participants that cannot reach each other. The router keeps a handle per
//! connected participant; sending through a handle is the caller's work.
use vstd::prelude::*;
use crate::discovery_registry::{
    first_index, found, lemma_first_index, lemma_first_index_hit, lemma_first_index_miss, lemma_put_found,
    lemma_remove_found, prefix_eq,
};

verus! {

/// Relay statistics.
#[derive(Clone, Copy, Debug)]
pub struct RelayStats {
    /// Messages relayed.
    pub messages_relayed: u64,
    /// Bytes relayed.
    pub bytes_relayed: u64,
    /// Relay errors (destination not found, send failed).
    pub relay_errors: u64,
}

impl Default for RelayStats {
    fn default() -> (s: Self)
        ensures
            s.messages_relayed == 0 && s.bytes_relayed == 0 && s.relay_errors == 0,
    {
        RelayStats { messages_relayed: 0, bytes_relayed: 0, relay_errors: 0 }
    }
}

/// Relay errors.
#[derive(Debug)]
pub enum RelayError {
    /// Sending to the destination failed.
    SendFailed,
    /// The destination is not connected.
    DestinationNotFound,
    /// The destination GUID is invalid.
    InvalidDestination,
}

pub open spec fn relay_error_message(e: RelayError) -> Seq<char> {
    match e {
        RelayError::SendFailed => "Failed to send message"@,
        RelayError::DestinationNotFound => "Destination not found"@,
        RelayError::InvalidDestination => "Invalid destination GUID"@,
    }
}

impl RelayError {
    /// The error's message.
    pub fn message(&self) -> (m: String)
        ensures
            m@ == relay_error_message(*self),
    {
        match self {
            RelayError::SendFailed => String::from_str("Failed to send message"),
            RelayError::DestinationNotFound => String::from_str("Destination not found"),
            RelayError::InvalidDestination => String::from_str("Invalid destination GUID"),
        }
    }
}

pub open spec fn conn_for<H>(gp: [u8; 12]) -> spec_fn(([u8; 12], H)) -> bool {
    |c: ([u8; 12], H)| c.0@ == gp@
}

pub open spec fn unique_conns<H>(cs: Seq<([u8; 12], H)>) -> bool {
    forall|i: int, j: int| 0 <= i < j < cs.len() ==> (#[trigger] cs[i]).0@ != (#[trigger] cs[j]).0@
}

/// The connections after `gp` registered `h`: its earlier handle is
/// replaced, else it is appended.
pub open spec fn conns_put<H>(cs: Seq<([u8; 12], H)>, gp: [u8; 12], h: H) -> Seq<([u8; 12], H)> {
    let k = first_index(cs, conn_for::<H>(gp));
    if k >= 0 {
        cs.update(k, (gp, h))
    } else {
        cs.push((gp, h))
    }
}

/// The connections after `gp` unregistered.
pub open spec fn conns_drop<H>(cs: Seq<([u8; 12], H)>, gp: [u8; 12]) -> Seq<([u8; 12], H)> {
    let k = first_index(cs, conn_for::<H>(gp));
    if k >= 0 {
        cs.remove(k)
    } else {
        cs
    }
}

/// The handle that routing to `gp` finds, if any.
pub open spec fn handle_of<H>(cs: Seq<([u8; 12], H)>, gp: [u8; 12]) -> Option<H> {
    match found(cs, conn_for::<H>(gp)) {
        Some(c) => Some(c.1),
        None => None,
    }
}

/// After a participant registers a handle, routing to it finds that
/// handle; routing to any other participant finds what it found before.
pub proof fn law_route_after_register<H>(cs: Seq<([u8; 12], H)>, gp: [u8; 12], h: H, dest: [u8; 12])
    ensures
        handle_of(conns_put(cs, gp, h), dest) == if dest@ == gp@ {
            Some(h)
        } else {
            handle_of(cs, dest)
        },
{
    let p = conn_for::<H>(gp);
    let q = conn_for::<H>(dest);
    if dest@ == gp@ {
        assert(q =~= p);
    } else {
        assert forall|y: ([u8; 12], H)| #[trigger] p(y) implies !q(y) by {}
    }
    lemma_put_found(cs, p, q, (gp, h));
}

/// After a participant unregisters, routing to it finds nothing; routing
/// to any other participant finds what it found before.
pub proof fn law_route_after_unregister<H>(cs: Seq<([u8; 12], H)>, gp: [u8; 12], dest: [u8; 12])
    requires
        unique_conns(cs),
    ensures
        handle_of(conns_drop(cs, gp), dest) == if dest@ == gp@ {
            None
        } else {
            handle_of(cs, dest)
        },
{
    let p = conn_for::<H>(gp);
    let q = conn_for::<H>(dest);
    lemma_first_index(cs, p);
    let k = first_index(cs, p);
    if dest@ == gp@ {
        assert(q =~= p);
    } else {
        assert forall|y: ([u8; 12], H)| #[trigger] p(y) implies !q(y) by {}
    }
    if k >= 0 {
        assert forall|i: int| 0 <= i < cs.len() && i != k implies !p(#[trigger] cs[i]) by {
            if i > k {
                assert(cs[k].0@ != cs[i].0@);
            }
        }
        lemma_remove_found(cs, p, q);
    }
}

/// The handles to reach, in order: every connection but the excluded one.
pub open spec fn broadcast_handles<H>(cs: Seq<([u8; 12], H)>, exclude: Option<[u8; 12]>) -> Seq<H>
    decreases cs.len(),
{
    if cs.len() == 0 {
        Seq::empty()
    } else {
        let r = broadcast_handles(cs.drop_last(), exclude);
        match exclude {
            Some(e) => if cs.last().0@ == e@ {
                r
            } else {
                r.push(cs.last().1)
            },
            None => r.push(cs.last().1),
        }
    }
}

/// Connected participants by GUID prefix, for relay routing.
pub struct RelayRouter<H> {
    connections: Vec<([u8; 12], H)>,
    stats: RelayStats,
}

impl<H> RelayRouter<H> {
    /// The connections, in registration order.
    pub closed spec fn connections(&self) -> Seq<([u8; 12], H)> {
        self.connections@
    }

    pub closed spec fn stats_spec(&self) -> RelayStats {
        self.stats
    }

    /// A prefix names one connection.
    pub closed spec fn wf(&self) -> bool {
        unique_conns(self.connections@)
    }

    /// A router with no connection and zero statistics.
    pub fn new() -> (r: Self)
        ensures
            r.wf(),
            r.connections().len() == 0,
            r.stats_spec().messages_relayed == 0,
            r.stats_spec().bytes_relayed == 0,
            r.stats_spec().relay_errors == 0,
    {
        RelayRouter { connections: Vec::new(), stats: RelayStats::default() }
    }

    fn find(&self, gp: &[u8; 12]) -> (k: Option<usize>)
        ensures
            match k {
                Some(i) => i == first_index(self.connections@, conn_for::<H>(*gp)) && i < self.connections@.len(),
                None => first_index(self.connections@, conn_for::<H>(*gp)) == -1,
            },
    {
        let mut i: usize = 0;
        assert(self.connections@.take(0) =~= Seq::<([u8; 12], H)>::empty());
        while i < self.connections.len()
            invariant
                i <= self.connections@.len(),
                first_index(self.connections@.take(i as int), conn_for::<H>(*gp)) == -1,
            decreases self.connections@.len() - i,
        {
            if prefix_eq(&self.connections[i].0, gp) {
                proof {
                    lemma_first_index_hit(self.connections@, conn_for::<H>(*gp), i + 1);
                }
                return Some(i);
            }
            proof {
                lemma_first_index_miss(self.connections@, conn_for::<H>(*gp), i as int);
            }
            i = i + 1;
        }
        assert(self.connections@.take(i as int) =~= self.connections@);
        None
    }

    /// Registers the handle of a participant, replacing an earlier one.
    pub fn register(&mut self, guid_prefix: [u8; 12], handle: H)
        requires
            old(self).wf(),
        ensures
            final(self).wf(),
            final(self).stats_spec() == old(self).stats_spec(),
            final(self).connections() == conns_put(old(self).connections(), guid_prefix, handle),
    {
        let ghost cs = self.connections@;
        proof {
            lemma_first_index(cs, conn_for::<H>(guid_prefix));
        }
        match self.find(&guid_prefix) {
            Some(k) => {
                self.connections.set(k, (guid_prefix, handle));
                assert forall|i: int, j: int| 0 <= i < j < self.connections@.len() implies (#[trigger] self.connections@[i]).0@ != (#[trigger] self.connections@[j]).0@ by {
                    assert(cs[i].0@ != cs[j].0@);
                }
            },
            None => {
                self.connections.push((guid_prefix, handle));
                assert forall|i: int, j: int| 0 <= i < j < self.connections@.len() implies (#[trigger] self.connections@[i]).0@ != (#[trigger] self.connections@[j]).0@ by {
                    if j == cs.len() {
                        assert(!conn_for::<H>(guid_prefix)(cs[i]));
                    } else {
                        assert(cs[i].0@ != cs[j].0@);
                    }
                }
            },
        }
    }

    /// Unregisters a participant; afterwards it is not connected.
    pub fn unregister(&mut self, guid_prefix: &[u8; 12])
        requires
            old(self).wf(),
        ensures
            final(self).wf(),
            final(self).stats_spec() == old(self).stats_spec(),
            final(self).connections() == conns_drop(old(self).connections(), *guid_prefix),
            forall|i: int| 0 <= i < final(self).connections().len() ==> (#[trigger] final(self).connections()[i]).0@ != guid_prefix@,
    {
        let ghost cs = self.connections@;
        proof {
            lemma_first_index(cs, conn_for::<H>(*guid_prefix));
        }
        match self.find(guid_prefix) {
            Some(k) => {
                self.connections.remove(k);
                assert forall|i: int, j: int| 0 <= i < j < self.connections@.len() implies (#[trigger] self.connections@[i]).0@ != (#[trigger] self.connections@[j]).0@ by {
                    let a = if i < k { i } else { i + 1 };
                    let b = if j < k { j } else { j + 1 };
                    assert(self.connections@[i] == cs[a]);
                    assert(self.connections@[j] == cs[b]);
                }
                assert forall|i: int| 0 <= i < self.connections@.len() implies (#[trigger] self.connections@[i]).0@ != guid_prefix@ by {
                    let a = if i < k { i } else { i + 1 };
                    assert(self.connections@[i] == cs[a]);
                    assert(cs[a].0@ != cs[k as int].0@);
                }
            },
            None => {
                assert forall|i: int| 0 <= i < self.connections@.len() implies (#[trigger] self.connections@[i]).0@ != guid_prefix@ by {
                    assert(!conn_for::<H>(*guid_prefix)(cs[i]));
                }
            },
        }
    }

    /// The handle of a connected participant.
    pub fn route(&self, destination: &[u8; 12]) -> (h: Option<&H>)
        ensures
            ({
                let k = first_index(self.connections(), conn_for::<H>(*destination));
                match h {
                    Some(x) => k >= 0 && *x == self.connections()[k].1,
                    None => k == -1,
                }
            }),
    {
        match self.find(destination) {
            Some(k) => Some(&self.connections[k].1),
            None => None,
        }
    }

    /// Records a relay attempt: `None` when the destination was not
    /// connected (an error, and `Ok(false)`), `Some(true)` when the DATA was
    /// sent (one more message and `payload_len` more bytes, and
    /// `Ok(true)`), `Some(false)` when sending failed (an error, and
    /// `SendFailed`).
    pub fn record_relay(&mut self, sent: Option<bool>, payload_len: usize) -> (r: Result<bool, RelayError>)
        requires
            sent != Some(true) ==> old(self).stats_spec().relay_errors < u64::MAX,
            sent == Some(true) ==> old(self).stats_spec().messages_relayed < u64::MAX,
            sent == Some(true) ==> old(self).stats_spec().bytes_relayed + payload_len <= u64::MAX,
        ensures
            final(self).wf() == old(self).wf(),
            final(self).connections() == old(self).connections(),
            match sent {
                None => r matches Ok(false) && final(self).stats_spec() == RelayStats {
                    relay_errors: (old(self).stats_spec().relay_errors + 1) as u64,
                    ..old(self).stats_spec()
                },
                Some(true) => r matches Ok(true) && final(self).stats_spec() == RelayStats {
                    messages_relayed: (old(self).stats_spec().messages_relayed + 1) as u64,
                    bytes_relayed: (old(self).stats_spec().bytes_relayed + payload_len) as u64,
                    ..old(self).stats_spec()
                },
                Some(false) => r matches Err(RelayError::SendFailed) && final(self).stats_spec() == RelayStats {
                    relay_errors: (old(self).stats_spec().relay_errors + 1) as u64,
                    ..old(self).stats_spec()
                },
            },
    {
        match sent {
            None => {
                self.stats.relay_errors = self.stats.relay_errors + 1;
                Ok(false)
            },
            Some(true) => {
                self.stats.messages_relayed = self.stats.messages_relayed + 1;
                self.stats.bytes_relayed = self.stats.bytes_relayed + payload_len as u64;
                Ok(true)
            },
            Some(false) => {
                self.stats.relay_errors = self.stats.relay_errors + 1;
                Err(RelayError::SendFailed)
            },
        }
    }

    /// The handles a broadcast reaches: every connection but `exclude`.
    pub fn broadcast_targets(&self, exclude: Option<&[u8; 12]>) -> (hs: Vec<&H>)
        ensures
            hs@.map_values(|h: &H| *h) == broadcast_handles(
                self.connections(),
                match exclude {
                    Some(e) => Some(*e),
                    None => None,
                },
            ),
    {
        let ghost ex = match exclude {
            Some(e) => Some(*e),
            None => None::<[u8; 12]>,
        };
        let ghost cs = self.connections@;
        let mut hs: Vec<&H> = Vec::new();
        let mut i: usize = 0;
        assert(cs.take(0) =~= Seq::<([u8; 12], H)>::empty());
        while i < self.connections.len()
            invariant
                i <= cs.len(),
                cs == self.connections@,
                ex == (match exclude {
                    Some(e) => Some(*e),
                    None => None::<[u8; 12]>,
                }),
                hs@.map_values(|h: &H| *h) == broadcast_handles(cs.take(i as int), ex),
            decreases cs.len() - i,
        {
            let ghost before = hs@;
            assert(cs.take(i + 1).drop_last() =~= cs.take(i as int));
            assert(cs.take(i + 1).last() == cs[i as int]);
            let skip = match exclude {
                Some(e) => prefix_eq(&self.connections[i].0, e),
                None => false,
            };
            if !skip {
                hs.push(&self.connections[i].1);
                assert(hs@.map_values(|h: &H| *h) =~= before.map_values(|h: &H| *h).push(cs[i as int].1));
            }
            i = i + 1;
        }
        assert(cs.take(cs.len() as int) =~= cs);
        hs
    }

    /// The relay statistics.
    pub fn stats(&self) -> (s: &RelayStats)
        ensures
            *s == self.stats_spec(),
    {
        &self.stats
    }

    /// The number of connected participants.
    pub fn connection_count(&self) -> (n: usize)
        ensures
            n == self.connections().len(),
    {
        self.connections.len()
    }

    /// Whether a participant is connected.
    pub fn is_connected(&self, guid_prefix: &[u8; 12]) -> (b: bool)
        ensures
            b == (first_index(self.connections(), conn_for::<H>(*guid_prefix)) >= 0),
    {
        self.find(guid_prefix).is_some()
    }
}

} // verus!
