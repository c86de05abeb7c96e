//! Participant and endpoint registries of the discovery server.
use vstd::prelude::*;
use std::time::{Duration, Instant};
use crate::clock::{instant_now, elapsed_since, duration_ge, duration_at_least};
use crate::discovery_protocol::{
    DiscoveryMessage, EndpointInfoWire, EntityIdWire, GuidPrefixWire, ParticipantInfoWire,
    ProtocolError, entity_id_from_wire, guid_prefix_from_wire, hex_decode,
};
use crate::text::str_eq;

verus! {

// ---------------------------------------------------------------------------
// First match in a sequence

/// The index of the first element of `s` that satisfies `p`, or -1.
pub open spec fn first_index<T>(s: Seq<T>, p: spec_fn(T) -> bool) -> int
    decreases s.len(),
{
    if s.len() == 0 {
        -1
    } else {
        let k = first_index(s.drop_last(), p);
        if k >= 0 {
            k
        } else if p(s.last()) {
            s.len() - 1
        } else {
            -1
        }
    }
}

pub proof fn lemma_first_index<T>(s: Seq<T>, p: spec_fn(T) -> bool)
    ensures
        -1 <= first_index(s, p) < s.len(),
        first_index(s, p) >= 0 ==> p(s[first_index(s, p)]),
        forall|j: int| 0 <= j < s.len() && (first_index(s, p) < 0 || j < first_index(s, p)) ==> !p(#[trigger] s[j]),
    decreases s.len(),
{
    if s.len() > 0 {
        lemma_first_index(s.drop_last(), p);
        assert forall|j: int| 0 <= j < s.len() && (first_index(s, p) < 0 || j < first_index(s, p)) implies !p(#[trigger] s[j]) by {
            if j < s.len() - 1 {
                assert(s[j] == s.drop_last()[j]);
            }
        }
    }
}

/// Scanning: no match among the first `n - 1`, a match at `n - 1`.
pub proof fn lemma_first_index_hit<T>(s: Seq<T>, p: spec_fn(T) -> bool, n: int)
    requires
        0 < n <= s.len(),
        first_index(s.take(n - 1), p) == -1,
        p(s[n - 1]),
    ensures
        first_index(s, p) == n - 1,
{
    assert(s.take(n).drop_last() =~= s.take(n - 1));
    assert(first_index(s.take(n), p) == n - 1);
    lemma_first_index_extends(s, p, n);
}

proof fn lemma_first_index_extends<T>(s: Seq<T>, p: spec_fn(T) -> bool, n: int)
    requires
        0 <= n <= s.len(),
        first_index(s.take(n), p) >= 0,
    ensures
        first_index(s, p) == first_index(s.take(n), p),
    decreases s.len() - n,
{
    if n < s.len() {
        assert(s.take(n + 1).drop_last() =~= s.take(n));
        lemma_first_index_extends(s, p, n + 1);
    } else {
        assert(s.take(n) =~= s);
    }
}

/// Scanning: no match among the first `n`, none at `n`.
pub proof fn lemma_first_index_miss<T>(s: Seq<T>, p: spec_fn(T) -> bool, n: int)
    requires
        0 <= n < s.len(),
        first_index(s.take(n), p) == -1,
        !p(s[n]),
    ensures
        first_index(s.take(n + 1), p) == -1,
{
    assert(s.take(n + 1).drop_last() =~= s.take(n));
}

/// The first match is the index that matches with none before it, or -1
/// when nothing matches.
pub proof fn lemma_first_index_char<T>(s: Seq<T>, p: spec_fn(T) -> bool, j: int)
    requires
        (j == -1 && forall|i: int| 0 <= i < s.len() ==> !p(#[trigger] s[i])) || (0 <= j < s.len()
            && p(s[j]) && forall|i: int| 0 <= i < j ==> !p(#[trigger] s[i])),
    ensures
        first_index(s, p) == j,
{
    lemma_first_index(s, p);
    let k = first_index(s, p);
    if k >= 0 && j >= 0 {
        if k < j {
            assert(!p(s[k]));
        } else if j < k {
            assert(!p(s[j]));
        }
    } else if k >= 0 {
        assert(!p(s[k]));
    } else if j >= 0 {
        assert(!p(s[j]));
    }
}

/// The element a predicate finds first, if any.
pub open spec fn found<T>(s: Seq<T>, p: spec_fn(T) -> bool) -> Option<T> {
    let k = first_index(s, p);
    if k >= 0 {
        Some(s[k])
    } else {
        None
    }
}

/// Replacing the first `p`-match with `x` (or appending `x`), where `p`
/// holds of `x`: `p` then finds `x`, and a predicate that holds of nothing
/// `p` holds of finds what it found before.
pub proof fn lemma_put_found<T>(s: Seq<T>, p: spec_fn(T) -> bool, q: spec_fn(T) -> bool, x: T)
    requires
        p(x),
    ensures
        ({
            let k = first_index(s, p);
            let s2 = if k >= 0 { s.update(k, x) } else { s.push(x) };
            &&& found(s2, p) == Some(x)
            &&& (forall|y: T| #[trigger] p(y) ==> !q(y)) ==> found(s2, q) == found(s, q)
        }),
{
    lemma_first_index(s, p);
    lemma_first_index(s, q);
    let k = first_index(s, p);
    let j = first_index(s, q);
    let s2 = if k >= 0 { s.update(k, x) } else { s.push(x) };
    if k >= 0 {
        lemma_first_index_char(s2, p, k);
    } else {
        assert forall|i: int| 0 <= i < s2.len() - 1 implies !p(#[trigger] s2[i]) by {
            assert(s2[i] == s[i]);
        }
        lemma_first_index_char(s2, p, s.len() as int);
    }
    if !(forall|y: T| #[trigger] p(y) ==> !q(y)) {
    } else if k >= 0 {
        assert(!q(s[k]));
        if j >= 0 {
            assert(j != k);
        }
        assert forall|i: int| 0 <= i < s2.len() && (j < 0 || i < j) implies !q(#[trigger] s2[i]) by {
            if i != k {
                assert(s2[i] == s[i]);
            }
        }
        lemma_first_index_char(s2, q, j);
    } else {
        assert(!q(x));
        assert forall|i: int| 0 <= i < s2.len() && (j < 0 || i < j) implies !q(#[trigger] s2[i]) by {
            if i < s.len() {
                assert(s2[i] == s[i]);
            }
        }
        lemma_first_index_char(s2, q, j);
    }
}

/// Removing the only `p`-match: `p` then finds nothing, and a predicate
/// that holds of nothing `p` holds of finds what it found before.
pub proof fn lemma_remove_found<T>(s: Seq<T>, p: spec_fn(T) -> bool, q: spec_fn(T) -> bool)
    requires
        first_index(s, p) >= 0,
        forall|i: int| 0 <= i < s.len() && i != first_index(s, p) ==> !p(#[trigger] s[i]),
    ensures
        found(s.remove(first_index(s, p)), p) is None,
        (forall|y: T| #[trigger] p(y) ==> !q(y)) ==> found(s.remove(first_index(s, p)), q) == found(s, q),
{
    lemma_first_index(s, p);
    lemma_first_index(s, q);
    let k = first_index(s, p);
    let j = first_index(s, q);
    let s2 = s.remove(k);
    assert forall|i: int| 0 <= i < s2.len() implies !p(#[trigger] s2[i]) by {
        if i < k {
            assert(s2[i] == s[i]);
        } else {
            assert(s2[i] == s[i + 1]);
        }
    }
    lemma_first_index_char(s2, p, -1);
    if forall|y: T| #[trigger] p(y) ==> !q(y) {
        assert(!q(s[k]));
        let j2 = if j < 0 { -1 } else if j < k { j } else { j - 1 };
        if j >= 0 {
            assert(j != k);
            assert(s2[j2] == s[j]);
        }
        assert forall|i: int| 0 <= i < s2.len() && (j2 < 0 || i < j2) implies !q(#[trigger] s2[i]) by {
            if i < k {
                assert(s2[i] == s[i]);
            } else {
                assert(s2[i] == s[i + 1]);
            }
        }
        lemma_first_index_char(s2, q, j2);
    }
}

// ---------------------------------------------------------------------------
// GUIDs

/// A full GUID: the participant's prefix and the entity's ID.
#[derive(Clone, Copy, Debug)]
pub struct Guid {
    pub prefix: [u8; 12],
    pub entity_id: [u8; 4],
}

pub open spec fn same_guid(a: Guid, b: Guid) -> bool {
    a.prefix@ == b.prefix@ && a.entity_id@ == b.entity_id@
}

/// Whether two GUID prefixes are equal.
pub fn prefix_eq(a: &[u8; 12], b: &[u8; 12]) -> (r: bool)
    ensures
        r == (a@ == b@),
{
    let mut i: usize = 0;
    while i < 12
        invariant
            i <= 12,
            a@.len() == 12,
            b@.len() == 12,
            forall|j: int| 0 <= j < i ==> a@[j] == b@[j],
        decreases 12 - i,
    {
        if a[i] != b[i] {
            return false;
        }
        i = i + 1;
    }
    assert(a@ =~= b@);
    true
}

fn entity_id_eq(a: &[u8; 4], b: &[u8; 4]) -> (r: bool)
    ensures
        r == (a@ == b@),
{
    let mut i: usize = 0;
    while i < 4
        invariant
            i <= 4,
            a@.len() == 4,
            b@.len() == 4,
            forall|j: int| 0 <= j < i ==> a@[j] == b@[j],
        decreases 4 - i,
    {
        if a[i] != b[i] {
            return false;
        }
        i = i + 1;
    }
    assert(a@ =~= b@);
    true
}

/// Whether two GUIDs are equal.
pub fn guid_eq(a: &Guid, b: &Guid) -> (r: bool)
    ensures
        r == same_guid(*a, *b),
{
    prefix_eq(&a.prefix, &b.prefix) && entity_id_eq(&a.entity_id, &b.entity_id)
}

// ---------------------------------------------------------------------------
// Participants and endpoints

/// A registered participant. Locators are socket-address texts.
pub struct ParticipantInfo {
    pub guid_prefix: [u8; 12],
    pub domain_id: u32,
    pub name: Option<String>,
    pub unicast_locators: Vec<String>,
    pub default_unicast_locators: Vec<String>,
    pub vendor_id: [u8; 2],
    pub protocol_version: (u8, u8),
    pub builtin_endpoints: u32,
    /// Last activity.
    pub last_seen: Instant,
    /// Registration time.
    pub registered_at: Instant,
}

pub open spec fn strings_view(v: Seq<String>) -> Seq<Seq<char>> {
    v.map_values(|s: String| s@)
}

pub open spec fn opt_string_view(o: Option<String>) -> Option<Seq<char>> {
    match o {
        Some(s) => Some(s@),
        None => None,
    }
}

/// Two participant records agree on everything but their timestamps.
pub open spec fn same_participant_data(a: ParticipantInfo, b: ParticipantInfo) -> bool {
    &&& a.guid_prefix@ == b.guid_prefix@
    &&& a.domain_id == b.domain_id
    &&& opt_string_view(a.name) == opt_string_view(b.name)
    &&& strings_view(a.unicast_locators@) == strings_view(b.unicast_locators@)
    &&& strings_view(a.default_unicast_locators@) == strings_view(b.default_unicast_locators@)
    &&& a.vendor_id@ == b.vendor_id@
    &&& a.protocol_version == b.protocol_version
    &&& a.builtin_endpoints == b.builtin_endpoints
}

fn clone_strings(v: &Vec<String>) -> (r: Vec<String>)
    ensures
        strings_view(r@) == strings_view(v@),
{
    let mut r: Vec<String> = Vec::new();
    let mut i: usize = 0;
    while i < v.len()
        invariant
            i <= v@.len(),
            strings_view(r@) == strings_view(v@).take(i as int),
        decreases v@.len() - i,
    {
        let ghost before = r@;
        r.push(v[i].clone());
        assert(strings_view(r@) =~= strings_view(before).push(v@[i as int]@));
        assert(strings_view(v@).take(i + 1) =~= strings_view(v@).take(i as int).push(v@[i as int]@));
        i = i + 1;
    }
    assert(strings_view(v@).take(v@.len() as int) =~= strings_view(v@));
    r
}

fn clone_opt_string(o: &Option<String>) -> (r: Option<String>)
    ensures
        opt_string_view(r) == opt_string_view(*o),
{
    match o {
        Some(s) => Some(s.clone()),
        None => None,
    }
}

impl ParticipantInfo {
    /// A participant with the HDDS vendor ID, RTPS 2.4, no name, locators or
    /// built-in endpoints, seen and registered now.
    pub fn new(guid_prefix: [u8; 12], domain_id: u32) -> (p: Self)
        ensures
            p.guid_prefix == guid_prefix,
            p.domain_id == domain_id,
            p.name is None,
            p.unicast_locators@.len() == 0,
            p.default_unicast_locators@.len() == 0,
            p.vendor_id@ == seq![0x01u8, 0x10u8],
            p.protocol_version == (2u8, 4u8),
            p.builtin_endpoints == 0,
    {
        let now = instant_now();
        let p = ParticipantInfo {
            guid_prefix,
            domain_id,
            name: None,
            unicast_locators: Vec::new(),
            default_unicast_locators: Vec::new(),
            vendor_id: [0x01, 0x10],
            protocol_version: (2, 4),
            builtin_endpoints: 0,
            last_seen: now,
            registered_at: now,
        };
        assert(p.vendor_id@ =~= seq![0x01u8, 0x10u8]);
        p
    }

    /// Whether more than `lease_duration` has passed since the participant
    /// was last seen; this reads the clock.
    pub fn is_expired(&self, lease_duration: Duration) -> (r: bool)
        ensures
            exists|elapsed: Duration| r == !duration_at_least(lease_duration, elapsed),
    {
        let since = elapsed_since(&self.last_seen);
        !duration_ge(&lease_duration, &since)
    }

    /// Marks the participant as seen now.
    pub fn touch(&mut self)
        ensures
            same_participant_data(*final(self), *old(self)),
            final(self).registered_at == old(self).registered_at,
    {
        self.last_seen = instant_now();
    }

    /// A copy of the record, timestamps included.
    pub fn duplicate(&self) -> (r: Self)
        ensures
            same_participant_data(r, *self),
    {
        ParticipantInfo {
            guid_prefix: self.guid_prefix,
            domain_id: self.domain_id,
            name: clone_opt_string(&self.name),
            unicast_locators: clone_strings(&self.unicast_locators),
            default_unicast_locators: clone_strings(&self.default_unicast_locators),
            vendor_id: self.vendor_id,
            protocol_version: self.protocol_version,
            builtin_endpoints: self.builtin_endpoints,
            last_seen: self.last_seen,
            registered_at: self.registered_at,
        }
    }

    /// The participant's wire form.
    pub fn to_wire(&self) -> (w: ParticipantInfoWire)
        ensures
            participant_wire_matches(w, *self),
    {
        ParticipantInfoWire {
            guid_prefix: GuidPrefixWire::from_prefix(self.guid_prefix),
            domain_id: self.domain_id,
            name: clone_opt_string(&self.name),
            unicast_locators: clone_strings(&self.unicast_locators),
            default_unicast_locators: clone_strings(&self.default_unicast_locators),
            vendor_id: self.vendor_id,
            protocol_version: self.protocol_version,
            builtin_endpoints: self.builtin_endpoints,
        }
    }

    /// The participant of an announcement. `unicast_locators` and
    /// `default_unicast_locators` are the wire locators that parse as socket
    /// addresses, in their canonical text.
    pub fn from_wire(
        wire: &ParticipantInfoWire,
        unicast_locators: Vec<String>,
        default_unicast_locators: Vec<String>,
    ) -> (r: Result<ParticipantInfo, ProtocolError>)
        ensures
            match r {
                Ok(p) => {
                    &&& hex_decode(wire.guid_prefix.0@) == Some(p.guid_prefix@)
                    &&& p.domain_id == wire.domain_id
                    &&& opt_string_view(p.name) == opt_string_view(wire.name)
                    &&& p.unicast_locators == unicast_locators
                    &&& p.default_unicast_locators == default_unicast_locators
                    &&& p.vendor_id == wire.vendor_id
                    &&& p.protocol_version == wire.protocol_version
                    &&& p.builtin_endpoints == wire.builtin_endpoints
                },
                Err(e) => e is InvalidGuidPrefix && !(hex_decode(wire.guid_prefix.0@) matches Some(
                    b,
                ) && b.len() == 12),
            },
    {
        let gp = match guid_prefix_from_wire(&wire.guid_prefix) {
            Ok(gp) => gp,
            Err(e) => {
                return Err(e);
            },
        };
        let mut info = ParticipantInfo::new(gp, wire.domain_id);
        info.name = clone_opt_string(&wire.name);
        info.unicast_locators = unicast_locators;
        info.default_unicast_locators = default_unicast_locators;
        info.vendor_id = wire.vendor_id;
        info.protocol_version = wire.protocol_version;
        info.builtin_endpoints = wire.builtin_endpoints;
        Ok(info)
    }
}

/// A participant's wire form carries its data, the prefix as hex.
pub open spec fn participant_wire_matches(w: ParticipantInfoWire, p: ParticipantInfo) -> bool {
    &&& w.guid_prefix.0@ == crate::discovery_protocol::hex_encode(p.guid_prefix@)
    &&& w.domain_id == p.domain_id
    &&& opt_string_view(w.name) == opt_string_view(p.name)
    &&& strings_view(w.unicast_locators@) == strings_view(p.unicast_locators@)
    &&& strings_view(w.default_unicast_locators@) == strings_view(p.default_unicast_locators@)
    &&& w.vendor_id == p.vendor_id
    &&& w.protocol_version == p.protocol_version
    &&& w.builtin_endpoints == p.builtin_endpoints
}

/// A registered writer or reader.
pub struct EndpointInfo {
    pub guid: Guid,
    pub topic_name: String,
    pub data_type: String,
    /// A writer (true) or a reader (false).
    pub is_writer: bool,
    /// Reliable (true) or best-effort (false).
    pub reliable: bool,
    /// Durability kind (0 volatile, 1 transient-local, ...).
    pub durability: u8,
    pub unicast_locators: Vec<String>,
}

impl EndpointInfo {
    /// The endpoint of an announcement; `unicast_locators` are the wire
    /// locators that parse as socket addresses, in their canonical text.
    pub fn from_wire(wire: &EndpointInfoWire, unicast_locators: Vec<String>) -> (r: Result<EndpointInfo, ProtocolError>)
        ensures
            match r {
                Ok(e) => {
                    &&& hex_decode(wire.guid_prefix.0@) == Some(e.guid.prefix@)
                    &&& hex_decode(wire.entity_id.0@) == Some(e.guid.entity_id@)
                    &&& e.topic_name@ == wire.topic_name@
                    &&& e.data_type@ == wire.data_type@
                    &&& e.is_writer == wire.is_writer
                    &&& e.reliable == wire.reliable
                    &&& e.durability == wire.durability
                    &&& e.unicast_locators == unicast_locators
                },
                Err(e) => {
                    ||| (e is InvalidGuidPrefix && !(hex_decode(wire.guid_prefix.0@) matches Some(b)
                        && b.len() == 12))
                    ||| (e is InvalidEntityId && (hex_decode(wire.guid_prefix.0@) matches Some(b)
                        && b.len() == 12) && !(hex_decode(wire.entity_id.0@) matches Some(b)
                        && b.len() == 4))
                },
            },
    {
        let prefix = match guid_prefix_from_wire(&wire.guid_prefix) {
            Ok(gp) => gp,
            Err(e) => {
                return Err(e);
            },
        };
        let entity_id = match entity_id_from_wire(&wire.entity_id) {
            Ok(eid) => eid,
            Err(e) => {
                return Err(e);
            },
        };
        Ok(EndpointInfo {
            guid: Guid { prefix, entity_id },
            topic_name: wire.topic_name.clone(),
            data_type: wire.data_type.clone(),
            is_writer: wire.is_writer,
            reliable: wire.reliable,
            durability: wire.durability,
            unicast_locators,
        })
    }
}

// ---------------------------------------------------------------------------
// Registry model

pub open spec fn has_prefix(gp: [u8; 12]) -> spec_fn(ParticipantInfo) -> bool {
    |p: ParticipantInfo| p.guid_prefix@ == gp@
}

pub open spec fn has_guid(g: Guid) -> spec_fn(EndpointInfo) -> bool {
    |e: EndpointInfo| same_guid(e.guid, g)
}

pub open spec fn has_domain(d: u32) -> spec_fn((u32, Seq<[u8; 12]>)) -> bool {
    |e: (u32, Seq<[u8; 12]>)| e.0 == d
}

pub open spec fn has_topic(t: Seq<char>) -> spec_fn((Seq<char>, Seq<Guid>)) -> bool {
    |e: (Seq<char>, Seq<Guid>)| e.0 == t
}

pub open spec fn other_prefix(gp: [u8; 12]) -> spec_fn([u8; 12]) -> bool {
    |x: [u8; 12]| x@ != gp@
}

pub open spec fn other_guid(g: Guid) -> spec_fn(Guid) -> bool {
    |x: Guid| !same_guid(x, g)
}

/// Participants, a map keyed by prefix: a new record replaces the old one.
pub open spec fn participants_put(ps: Seq<ParticipantInfo>, info: ParticipantInfo) -> Seq<ParticipantInfo> {
    let k = first_index(ps, has_prefix(info.guid_prefix));
    if k >= 0 {
        ps.update(k, info)
    } else {
        ps.push(info)
    }
}

/// Endpoints, a map keyed by GUID: a new record replaces the old one.
pub open spec fn endpoints_put(es: Seq<EndpointInfo>, info: EndpointInfo) -> Seq<EndpointInfo> {
    let k = first_index(es, has_guid(info.guid));
    if k >= 0 {
        es.update(k, info)
    } else {
        es.push(info)
    }
}

/// The domain index after `gp` was (re)listed last under `d`.
pub open spec fn domain_put(idx: Seq<(u32, Seq<[u8; 12]>)>, d: u32, gp: [u8; 12]) -> Seq<(u32, Seq<[u8; 12]>)> {
    let k = first_index(idx, has_domain(d));
    if k >= 0 {
        idx.update(k, (d, idx[k].1.filter(other_prefix(gp)).push(gp)))
    } else {
        idx.push((d, seq![gp]))
    }
}

/// The domain index after `gp` was taken off the list of `d`.
pub open spec fn domain_drop(idx: Seq<(u32, Seq<[u8; 12]>)>, d: u32, gp: [u8; 12]) -> Seq<(u32, Seq<[u8; 12]>)> {
    let k = first_index(idx, has_domain(d));
    if k >= 0 {
        idx.update(k, (d, idx[k].1.filter(other_prefix(gp))))
    } else {
        idx
    }
}

/// The topic index after `g` was (re)listed last under topic `t`.
pub open spec fn topic_put(idx: Seq<(Seq<char>, Seq<Guid>)>, t: Seq<char>, g: Guid) -> Seq<(Seq<char>, Seq<Guid>)> {
    let k = first_index(idx, has_topic(t));
    if k >= 0 {
        idx.update(k, (t, idx[k].1.filter(other_guid(g)).push(g)))
    } else {
        idx.push((t, seq![g]))
    }
}

/// The domain index after a participant record is registered: its prefix
/// leaves the list of the domain its earlier record had, if any, and is
/// listed last under the record's domain.
pub open spec fn domain_reput(idx: Seq<(u32, Seq<[u8; 12]>)>, ps: Seq<ParticipantInfo>, info: ParticipantInfo) -> Seq<(u32, Seq<[u8; 12]>)> {
    let k = first_index(ps, has_prefix(info.guid_prefix));
    let idx1 = if k >= 0 {
        domain_drop(idx, ps[k].domain_id, info.guid_prefix)
    } else {
        idx
    };
    domain_put(idx1, info.domain_id, info.guid_prefix)
}

/// The topic index after an endpoint record is registered: its GUID leaves
/// the list of the topic its earlier record had, if any, and is listed last
/// under the record's topic.
pub open spec fn topic_reput(idx: Seq<(Seq<char>, Seq<Guid>)>, es: Seq<EndpointInfo>, info: EndpointInfo) -> Seq<(Seq<char>, Seq<Guid>)> {
    let k = first_index(es, has_guid(info.guid));
    let idx1 = if k >= 0 {
        topic_drop(idx, es[k].topic_name@, info.guid)
    } else {
        idx
    };
    topic_put(idx1, info.topic_name@, info.guid)
}

/// The topic index after `g` was taken off the list of topic `t`.
pub open spec fn topic_drop(idx: Seq<(Seq<char>, Seq<Guid>)>, t: Seq<char>, g: Guid) -> Seq<(Seq<char>, Seq<Guid>)> {
    let k = first_index(idx, has_topic(t));
    if k >= 0 {
        idx.update(k, (t, idx[k].1.filter(other_guid(g))))
    } else {
        idx
    }
}

/// The topic index after the endpoints of `es` with prefix `gp` were
/// removed one by one.
pub open spec fn topic_drop_prefix(idx: Seq<(Seq<char>, Seq<Guid>)>, es: Seq<EndpointInfo>, gp: [u8; 12]) -> Seq<(Seq<char>, Seq<Guid>)>
    decreases es.len(),
{
    if es.len() == 0 {
        idx
    } else {
        let r = topic_drop_prefix(idx, es.drop_last(), gp);
        let e = es.last();
        if e.guid.prefix@ == gp@ {
            topic_drop(r, e.topic_name@, e.guid)
        } else {
            r
        }
    }
}

pub open spec fn not_of_prefix(gp: [u8; 12]) -> spec_fn(EndpointInfo) -> bool {
    |e: EndpointInfo| e.guid.prefix@ != gp@
}

/// The records listed under an index list that are registered, in list order.
pub open spec fn participants_listed(ps: Seq<ParticipantInfo>, list: Seq<[u8; 12]>) -> Seq<ParticipantInfo> {
    list.filter_map(|gp: [u8; 12]| {
        let k = first_index(ps, has_prefix(gp));
        if k >= 0 {
            Some(ps[k])
        } else {
            None
        }
    })
}

pub open spec fn endpoints_listed(es: Seq<EndpointInfo>, list: Seq<Guid>) -> Seq<EndpointInfo> {
    list.filter_map(|g: Guid| {
        let k = first_index(es, has_guid(g));
        if k >= 0 {
            Some(es[k])
        } else {
            None
        }
    })
}

/// Registry of participants and their endpoints, with a domain index and a
/// topic index.
pub struct ParticipantRegistry {
    participants: Vec<ParticipantInfo>,
    endpoints: Vec<EndpointInfo>,
    topic_index: Vec<(String, Vec<Guid>)>,
    domain_index: Vec<(u32, Vec<[u8; 12]>)>,
}

pub open spec fn topic_index_view(v: Seq<(String, Vec<Guid>)>) -> Seq<(Seq<char>, Seq<Guid>)> {
    v.map_values(|e: (String, Vec<Guid>)| (e.0@, e.1@))
}

pub open spec fn domain_index_view(v: Seq<(u32, Vec<[u8; 12]>)>) -> Seq<(u32, Seq<[u8; 12]>)> {
    v.map_values(|e: (u32, Vec<[u8; 12]>)| (e.0, e.1@))
}

impl ParticipantRegistry {
    pub closed spec fn participants_seq(&self) -> Seq<ParticipantInfo> {
        self.participants@
    }

    pub closed spec fn endpoints_seq(&self) -> Seq<EndpointInfo> {
        self.endpoints@
    }

    pub closed spec fn topic_index(&self) -> Seq<(Seq<char>, Seq<Guid>)> {
        topic_index_view(self.topic_index@)
    }

    pub closed spec fn domain_index(&self) -> Seq<(u32, Seq<[u8; 12]>)> {
        domain_index_view(self.domain_index@)
    }

    /// An empty registry.
    pub fn new() -> (r: Self)
        ensures
            r.wf(),
            r.participants_seq().len() == 0,
            r.endpoints_seq().len() == 0,
            r.topic_index().len() == 0,
            r.domain_index().len() == 0,
    {
        let r = ParticipantRegistry {
            participants: Vec::new(),
            endpoints: Vec::new(),
            topic_index: Vec::new(),
            domain_index: Vec::new(),
        };
        assert(r.topic_index() =~= Seq::<(Seq<char>, Seq<Guid>)>::empty());
        assert(r.domain_index() =~= Seq::<(u32, Seq<[u8; 12]>)>::empty());
        r
    }

    fn find_participant(&self, gp: &[u8; 12]) -> (k: Option<usize>)
        ensures
            match k {
                Some(i) => i == first_index(self.participants@, has_prefix(*gp)) && i < self.participants@.len(),
                None => first_index(self.participants@, has_prefix(*gp)) == -1,
            },
    {
        let mut i: usize = 0;
        assert(self.participants@.take(0) =~= Seq::<ParticipantInfo>::empty());
        while i < self.participants.len()
            invariant
                i <= self.participants@.len(),
                first_index(self.participants@.take(i as int), has_prefix(*gp)) == -1,
            decreases self.participants@.len() - i,
        {
            if prefix_eq(&self.participants[i].guid_prefix, gp) {
                proof {
                    lemma_first_index_hit(self.participants@, has_prefix(*gp), i + 1);
                }
                return Some(i);
            }
            proof {
                lemma_first_index_miss(self.participants@, has_prefix(*gp), i as int);
            }
            i = i + 1;
        }
        assert(self.participants@.take(i as int) =~= self.participants@);
        None
    }

    fn find_endpoint(&self, g: &Guid) -> (k: Option<usize>)
        ensures
            match k {
                Some(i) => i == first_index(self.endpoints@, has_guid(*g)) && i < self.endpoints@.len(),
                None => first_index(self.endpoints@, has_guid(*g)) == -1,
            },
    {
        let mut i: usize = 0;
        assert(self.endpoints@.take(0) =~= Seq::<EndpointInfo>::empty());
        while i < self.endpoints.len()
            invariant
                i <= self.endpoints@.len(),
                first_index(self.endpoints@.take(i as int), has_guid(*g)) == -1,
            decreases self.endpoints@.len() - i,
        {
            if guid_eq(&self.endpoints[i].guid, g) {
                proof {
                    lemma_first_index_hit(self.endpoints@, has_guid(*g), i + 1);
                }
                return Some(i);
            }
            proof {
                lemma_first_index_miss(self.endpoints@, has_guid(*g), i as int);
            }
            i = i + 1;
        }
        assert(self.endpoints@.take(i as int) =~= self.endpoints@);
        None
    }

    fn find_domain(&self, d: u32) -> (k: Option<usize>)
        ensures
            match k {
                Some(i) => i == first_index(self.domain_index(), has_domain(d)) && i < self.domain_index@.len(),
                None => first_index(self.domain_index(), has_domain(d)) == -1,
            },
    {
        let ghost v = self.domain_index();
        let mut i: usize = 0;
        assert(v.take(0) =~= Seq::<(u32, Seq<[u8; 12]>)>::empty());
        while i < self.domain_index.len()
            invariant
                i <= self.domain_index@.len(),
                v == self.domain_index(),
                first_index(v.take(i as int), has_domain(d)) == -1,
            decreases self.domain_index@.len() - i,
        {
            assert(v[i as int].0 == self.domain_index@[i as int].0);
            if self.domain_index[i].0 == d {
                proof {
                    lemma_first_index_hit(v, has_domain(d), i + 1);
                }
                return Some(i);
            }
            proof {
                lemma_first_index_miss(v, has_domain(d), i as int);
            }
            i = i + 1;
        }
        assert(v.take(i as int) =~= v);
        None
    }

    fn find_topic(&self, t: &str) -> (k: Option<usize>)
        ensures
            match k {
                Some(i) => i == first_index(self.topic_index(), has_topic(t@)) && i < self.topic_index@.len(),
                None => first_index(self.topic_index(), has_topic(t@)) == -1,
            },
    {
        let ghost v = self.topic_index();
        let mut i: usize = 0;
        assert(v.take(0) =~= Seq::<(Seq<char>, Seq<Guid>)>::empty());
        while i < self.topic_index.len()
            invariant
                i <= self.topic_index@.len(),
                v == self.topic_index(),
                first_index(v.take(i as int), has_topic(t@)) == -1,
            decreases self.topic_index@.len() - i,
        {
            assert(v[i as int].0 == self.topic_index@[i as int].0@);
            if str_eq(self.topic_index[i].0.as_str(), t) {
                proof {
                    lemma_first_index_hit(v, has_topic(t@), i + 1);
                }
                return Some(i);
            }
            proof {
                lemma_first_index_miss(v, has_topic(t@), i as int);
            }
            i = i + 1;
        }
        assert(v.take(i as int) =~= v);
        None
    }
}


pub open spec fn unique_prefixes(ps: Seq<ParticipantInfo>) -> bool {
    forall|i: int, j: int| 0 <= i < j < ps.len() ==> (#[trigger] ps[i]).guid_prefix@ != (#[trigger] ps[j]).guid_prefix@
}

pub open spec fn unique_guids(es: Seq<EndpointInfo>) -> bool {
    forall|i: int, j: int| 0 <= i < j < es.len() ==> !same_guid((#[trigger] es[i]).guid, (#[trigger] es[j]).guid)
}

/// The participant registered under a prefix, if any.
pub open spec fn participant_of(ps: Seq<ParticipantInfo>, gp: [u8; 12]) -> Option<ParticipantInfo> {
    found(ps, has_prefix(gp))
}

/// The endpoint registered under a GUID, if any.
pub open spec fn endpoint_of(es: Seq<EndpointInfo>, g: Guid) -> Option<EndpointInfo> {
    found(es, has_guid(g))
}

/// After a participant is added, its prefix reads it back; every other
/// prefix reads what it read before.
pub proof fn law_participant_add_then_get(ps: Seq<ParticipantInfo>, info: ParticipantInfo, gp: [u8; 12])
    ensures
        participant_of(participants_put(ps, info), gp) == if gp@ == info.guid_prefix@ {
            Some(info)
        } else {
            participant_of(ps, gp)
        },
{
    if gp@ == info.guid_prefix@ {
        assert(has_prefix(gp) =~= has_prefix(info.guid_prefix));
        lemma_put_found(ps, has_prefix(info.guid_prefix), has_prefix(gp), info);
    } else {
        assert forall|y: ParticipantInfo| #[trigger] has_prefix(info.guid_prefix)(y) implies !has_prefix(gp)(y) by {}
        lemma_put_found(ps, has_prefix(info.guid_prefix), has_prefix(gp), info);
    }
}

/// After a registered participant is removed, its prefix reads nothing;
/// every other prefix reads what it read before.
pub proof fn law_participant_remove_then_get(ps: Seq<ParticipantInfo>, removed: [u8; 12], gp: [u8; 12])
    requires
        unique_prefixes(ps),
        first_index(ps, has_prefix(removed)) >= 0,
    ensures
        participant_of(ps.remove(first_index(ps, has_prefix(removed))), gp) == if gp@ == removed@ {
            None
        } else {
            participant_of(ps, gp)
        },
{
    let p = has_prefix(removed);
    lemma_first_index(ps, p);
    let k = first_index(ps, p);
    assert forall|i: int| 0 <= i < ps.len() && i != k implies !p(#[trigger] ps[i]) by {
        if i < k {
        } else {
            assert(ps[k].guid_prefix@ != ps[i].guid_prefix@);
        }
    }
    if gp@ == removed@ {
        assert(has_prefix(gp) =~= p);
        lemma_remove_found(ps, p, has_prefix(gp));
    } else {
        assert forall|y: ParticipantInfo| #[trigger] p(y) implies !has_prefix(gp)(y) by {}
        lemma_remove_found(ps, p, has_prefix(gp));
    }
}

/// After an endpoint is added, its GUID reads it back; every other GUID
/// reads what it read before.
pub proof fn law_endpoint_add_then_get(es: Seq<EndpointInfo>, info: EndpointInfo, g: Guid)
    ensures
        endpoint_of(endpoints_put(es, info), g) == if same_guid(g, info.guid) {
            Some(info)
        } else {
            endpoint_of(es, g)
        },
{
    if same_guid(g, info.guid) {
        assert(has_guid(g) =~= has_guid(info.guid));
        lemma_put_found(es, has_guid(info.guid), has_guid(g), info);
    } else {
        assert forall|y: EndpointInfo| #[trigger] has_guid(info.guid)(y) implies !has_guid(g)(y) by {}
        lemma_put_found(es, has_guid(info.guid), has_guid(g), info);
    }
}

/// After a registered endpoint is removed, its GUID reads nothing; every
/// other GUID reads what it read before.
pub proof fn law_endpoint_remove_then_get(es: Seq<EndpointInfo>, removed: Guid, g: Guid)
    requires
        unique_guids(es),
        first_index(es, has_guid(removed)) >= 0,
    ensures
        endpoint_of(es.remove(first_index(es, has_guid(removed))), g) == if same_guid(g, removed) {
            None
        } else {
            endpoint_of(es, g)
        },
{
    let p = has_guid(removed);
    lemma_first_index(es, p);
    let k = first_index(es, p);
    assert forall|i: int| 0 <= i < es.len() && i != k implies !p(#[trigger] es[i]) by {
        if i < k {
        } else {
            assert(!same_guid(es[k].guid, es[i].guid));
        }
    }
    if same_guid(g, removed) {
        assert(has_guid(g) =~= p);
        lemma_remove_found(es, p, has_guid(g));
    } else {
        assert forall|y: EndpointInfo| #[trigger] p(y) implies !has_guid(g)(y) by {}
        lemma_remove_found(es, p, has_guid(g));
    }
}

// ---------------------------------------------------------------------------
// The domain index lists each participant under its domain

/// `gp` is on the list.
pub open spec fn prefix_listed(l: Seq<[u8; 12]>, gp: [u8; 12]) -> bool {
    exists|x: int| 0 <= x < l.len() && (#[trigger] l[x])@ == gp@
}

/// No prefix is on the list twice.
pub open spec fn distinct_prefixes(l: Seq<[u8; 12]>) -> bool {
    forall|x: int, y: int| 0 <= x < y < l.len() ==> (#[trigger] l[x])@ != (#[trigger] l[y])@
}

/// A participant with prefix `gp` is registered in domain `d`.
pub open spec fn registered_in(ps: Seq<ParticipantInfo>, gp: [u8; 12], d: u32) -> bool {
    exists|k: int| 0 <= k < ps.len() && (#[trigger] ps[k]).guid_prefix@ == gp@ && ps[k].domain_id == d
}

/// Domain `d` lists `gp` in the index.
pub open spec fn domain_lists(di: Seq<(u32, Seq<[u8; 12]>)>, d: u32, gp: [u8; 12]) -> bool {
    exists|i: int| 0 <= i < di.len() && (#[trigger] di[i]).0 == d && prefix_listed(di[i].1, gp)
}

/// The domain index lists every registered participant under its domain,
/// lists nothing else, and lists no prefix twice under a domain; each
/// domain has one entry.
pub open spec fn domain_index_matches(ps: Seq<ParticipantInfo>, di: Seq<(u32, Seq<[u8; 12]>)>) -> bool {
    &&& forall|i: int, j: int| 0 <= i < j < di.len() ==> (#[trigger] di[i]).0 != (#[trigger] di[j]).0
    &&& forall|i: int| 0 <= i < di.len() ==> distinct_prefixes(#[trigger] di[i].1)
    &&& forall|i: int, gp: [u8; 12]| 0 <= i < di.len() && #[trigger] prefix_listed(di[i].1, gp) ==> registered_in(ps, gp, di[i].0)
    &&& forall|k: int| 0 <= k < ps.len() ==> #[trigger] domain_lists(di, ps[k].domain_id, ps[k].guid_prefix)
}

proof fn lemma_filter_prefix(l: Seq<[u8; 12]>, g: [u8; 12])
    ensures
        forall|q: [u8; 12]| #[trigger] prefix_listed(l.filter(other_prefix(g)), q) <==> (prefix_listed(l, q) && q@ != g@),
        distinct_prefixes(l) ==> distinct_prefixes(l.filter(other_prefix(g))),
    decreases l.len(),
{
    reveal_with_fuel(Seq::filter, 1);
    if l.len() > 0 {
        let r = l.drop_last();
        let e = l.last();
        lemma_filter_prefix(r, g);
        let f = l.filter(other_prefix(g));
        let fr = r.filter(other_prefix(g));
        assert forall|q: [u8; 12]| #[trigger] prefix_listed(f, q) <==> (prefix_listed(l, q) && q@ != g@) by {
            if prefix_listed(l, q) && q@ != g@ {
                let x = choose|x: int| 0 <= x < l.len() && (#[trigger] l[x])@ == q@;
                if x < l.len() - 1 {
                    assert(r[x] == l[x]);
                    assert(prefix_listed(r, q));
                    assert(prefix_listed(fr, q));
                    let y = choose|y: int| 0 <= y < fr.len() && (#[trigger] fr[y])@ == q@;
                    if other_prefix(g)(e) {
                        assert(f[y] == fr[y]);
                    } else {
                        assert(f[y] == fr[y]);
                    }
                } else {
                    assert(other_prefix(g)(e));
                    assert(f[fr.len() as int] == e);
                }
            }
            if prefix_listed(f, q) {
                let y = choose|y: int| 0 <= y < f.len() && (#[trigger] f[y])@ == q@;
                if y < fr.len() {
                    assert(f[y] == fr[y]);
                    assert(prefix_listed(fr, q));
                    let x = choose|x: int| 0 <= x < r.len() && (#[trigger] r[x])@ == q@;
                    assert(l[x] == r[x]);
                } else {
                    assert(f[y] == e);
                    assert(l[l.len() - 1] == e);
                }
            }
        }
        if distinct_prefixes(l) {
            assert(distinct_prefixes(r)) by {
                assert forall|x: int, y: int| 0 <= x < y < r.len() implies (#[trigger] r[x])@ != (#[trigger] r[y])@ by {
                    assert(r[x] == l[x] && r[y] == l[y]);
                }
            }
            assert forall|x: int, y: int| 0 <= x < y < f.len() implies (#[trigger] f[x])@ != (#[trigger] f[y])@ by {
                if y < fr.len() {
                    assert(f[x] == fr[x] && f[y] == fr[y]);
                } else {
                    assert(f[y] == e);
                    assert(f[x] == fr[x]);
                    assert(prefix_listed(fr, fr[x]));
                    if f[x]@ == e@ {
                        let z = choose|z: int| 0 <= z < r.len() && (#[trigger] r[z])@ == fr[x]@;
                        assert(l[z] == r[z]);
                        assert(l[l.len() - 1] == e);
                    }
                }
            }
        }
    }
}

/// Taking `g` off the list of domain `d0`.
proof fn lemma_domain_drop(di: Seq<(u32, Seq<[u8; 12]>)>, d0: u32, g: [u8; 12])
    requires
        forall|i: int, j: int| 0 <= i < j < di.len() ==> (#[trigger] di[i]).0 != (#[trigger] di[j]).0,
        forall|i: int| 0 <= i < di.len() ==> distinct_prefixes(#[trigger] di[i].1),
    ensures
        ({
            let r = domain_drop(di, d0, g);
            &&& r.len() == di.len()
            &&& forall|i: int| 0 <= i < r.len() ==> (#[trigger] r[i]).0 == di[i].0
            &&& forall|i: int| 0 <= i < r.len() ==> distinct_prefixes(#[trigger] r[i].1)
            &&& forall|i: int, q: [u8; 12]| 0 <= i < r.len() ==> (#[trigger] prefix_listed(r[i].1, q) <==> (
                prefix_listed(di[i].1, q) && !(di[i].0 == d0 && q@ == g@)))
        }),
{
    lemma_first_index(di, has_domain(d0));
    let t = first_index(di, has_domain(d0));
    let r = domain_drop(di, d0, g);
    if t >= 0 {
        lemma_filter_prefix(di[t].1, g);
        assert forall|i: int, q: [u8; 12]| 0 <= i < r.len() implies (#[trigger] prefix_listed(r[i].1, q) <==> (
            prefix_listed(di[i].1, q) && !(di[i].0 == d0 && q@ == g@))) by {
            if i != t {
                assert(r[i] == di[i]);
                if di[i].0 == d0 {
                    if i < t {
                        assert(!has_domain(d0)(di[i]));
                    } else {
                        assert(di[t].0 != di[i].0);
                    }
                }
            }
        }
    } else {
        assert forall|i: int, q: [u8; 12]| 0 <= i < r.len() implies (#[trigger] prefix_listed(r[i].1, q) <==> (
            prefix_listed(di[i].1, q) && !(di[i].0 == d0 && q@ == g@))) by {
            assert(!has_domain(d0)(di[i]));
        }
    }
}

/// Listing `g` last under domain `d`.
proof fn lemma_domain_put(di: Seq<(u32, Seq<[u8; 12]>)>, d: u32, g: [u8; 12])
    requires
        forall|i: int, j: int| 0 <= i < j < di.len() ==> (#[trigger] di[i]).0 != (#[trigger] di[j]).0,
        forall|i: int| 0 <= i < di.len() ==> distinct_prefixes(#[trigger] di[i].1),
    ensures
        ({
            let r = domain_put(di, d, g);
            &&& di.len() <= r.len() <= di.len() + 1
            &&& forall|i: int, j: int| 0 <= i < j < r.len() ==> (#[trigger] r[i]).0 != (#[trigger] r[j]).0
            &&& forall|i: int| 0 <= i < r.len() ==> distinct_prefixes(#[trigger] r[i].1)
            &&& forall|i: int| 0 <= i < di.len() ==> (#[trigger] r[i]).0 == di[i].0
            &&& forall|i: int, q: [u8; 12]| 0 <= i < di.len() ==> (#[trigger] prefix_listed(r[i].1, q) <==> (
                (prefix_listed(di[i].1, q) && !(di[i].0 == d && q@ == g@)) || (di[i].0 == d && q@ == g@)))
            &&& r.len() == di.len() + 1 ==> r[di.len() as int].0 == d && forall|q: [u8; 12]| #[trigger] prefix_listed(r[di.len() as int].1, q) <==> q@ == g@
            &&& domain_lists(r, d, g)
        }),
{
    lemma_first_index(di, has_domain(d));
    let t = first_index(di, has_domain(d));
    let r = domain_put(di, d, g);
    if t >= 0 {
        let l = di[t].1;
        let f = l.filter(other_prefix(g));
        lemma_filter_prefix(l, g);
        let nl = f.push(g);
        assert(r[t].1 == nl);
        assert forall|q: [u8; 12]| #[trigger] prefix_listed(nl, q) <==> (prefix_listed(f, q) || q@ == g@) by {
            if prefix_listed(f, q) {
                let y = choose|y: int| 0 <= y < f.len() && (#[trigger] f[y])@ == q@;
                assert(nl[y] == f[y]);
            }
            if q@ == g@ {
                assert(nl[f.len() as int] == g);
            }
            if prefix_listed(nl, q) && q@ != g@ {
                let y = choose|y: int| 0 <= y < nl.len() && (#[trigger] nl[y])@ == q@;
                assert(y < f.len());
                assert(nl[y] == f[y]);
            }
        }
        assert(distinct_prefixes(nl)) by {
            assert forall|x: int, y: int| 0 <= x < y < nl.len() implies (#[trigger] nl[x])@ != (#[trigger] nl[y])@ by {
                if y == f.len() {
                    assert(nl[x] == f[x]);
                    assert(prefix_listed(f, f[x]));
                } else {
                    assert(nl[x] == f[x] && nl[y] == f[y]);
                }
            }
        }
        assert(prefix_listed(r[t].1, g));
        assert forall|i: int, q: [u8; 12]| 0 <= i < di.len() implies (#[trigger] prefix_listed(r[i].1, q) <==> (
            (prefix_listed(di[i].1, q) && !(di[i].0 == d && q@ == g@)) || (di[i].0 == d && q@ == g@))) by {
            if i != t {
                assert(r[i] == di[i]);
                if di[i].0 == d {
                    if i < t {
                        assert(!has_domain(d)(di[i]));
                    } else {
                        assert(di[t].0 != di[i].0);
                    }
                }
            }
        }
    } else {
        assert forall|i: int, j: int| 0 <= i < j < r.len() implies (#[trigger] r[i]).0 != (#[trigger] r[j]).0 by {
            if j == di.len() {
                assert(!has_domain(d)(di[i]));
            }
        }
        let nl = seq![g];
        assert(r[di.len() as int] == (d, nl));
        assert forall|q: [u8; 12]| #[trigger] prefix_listed(nl, q) <==> q@ == g@ by {
            if q@ == g@ {
                assert(nl[0] == g);
            }
        }
        assert(prefix_listed(nl, g));
        assert forall|i: int, q: [u8; 12]| 0 <= i < di.len() implies (#[trigger] prefix_listed(r[i].1, q) <==> (
            (prefix_listed(di[i].1, q) && !(di[i].0 == d && q@ == g@)) || (di[i].0 == d && q@ == g@))) by {
            assert(r[i] == di[i]);
            assert(!has_domain(d)(di[i]));
        }
    }
}

/// A prefix the index lists names a registered participant, so with
/// unique prefixes it is listed only under that participant's domain.
proof fn lemma_listed_only_under_own(ps: Seq<ParticipantInfo>, di: Seq<(u32, Seq<[u8; 12]>)>, g: [u8; 12], i: int)
    requires
        unique_prefixes(ps),
        domain_index_matches(ps, di),
        0 <= i < di.len(),
        prefix_listed(di[i].1, g),
    ensures
        first_index(ps, has_prefix(g)) >= 0,
        di[i].0 == ps[first_index(ps, has_prefix(g))].domain_id,
{
    lemma_first_index(ps, has_prefix(g));
    assert(registered_in(ps, g, di[i].0));
    let k = choose|k: int| 0 <= k < ps.len() && (#[trigger] ps[k]).guid_prefix@ == g@ && ps[k].domain_id == di[i].0;
    let k0 = first_index(ps, has_prefix(g));
    assert(has_prefix(g)(ps[k]));
    if k0 != k {
        assert(ps[k0].guid_prefix@ == ps[k].guid_prefix@);
    }
}

/// Registering a participant record keeps the domain index matching the
/// participants.
proof fn lemma_matches_add(ps: Seq<ParticipantInfo>, di: Seq<(u32, Seq<[u8; 12]>)>, info: ParticipantInfo)
    requires
        unique_prefixes(ps),
        domain_index_matches(ps, di),
    ensures
        domain_index_matches(participants_put(ps, info), domain_reput(di, ps, info)),
{
    let g = info.guid_prefix;
    let d = info.domain_id;
    lemma_first_index(ps, has_prefix(g));
    let k0 = first_index(ps, has_prefix(g));
    let ps2 = participants_put(ps, info);
    let di1 = if k0 >= 0 { domain_drop(di, ps[k0].domain_id, g) } else { di };
    if k0 >= 0 {
        lemma_domain_drop(di, ps[k0].domain_id, g);
    }
    assert forall|i: int| 0 <= i < di1.len() implies !#[trigger] prefix_listed(di1[i].1, g) by {
        if k0 >= 0 {
            if prefix_listed(di[i].1, g) {
                lemma_listed_only_under_own(ps, di, g, i);
            }
        } else {
            if prefix_listed(di[i].1, g) {
                lemma_listed_only_under_own(ps, di, g, i);
            }
        }
    }
    assert(forall|i: int, j: int| 0 <= i < j < di1.len() ==> (#[trigger] di1[i]).0 != (#[trigger] di1[j]).0);
    lemma_domain_put(di1, d, g);
    let r = domain_put(di1, d, g);
    assert(r == domain_reput(di, ps, info));
    let kn = if k0 >= 0 { k0 } else { ps.len() as int };
    assert(ps2[kn] == info);
    assert forall|i: int, q: [u8; 12]| 0 <= i < r.len() && #[trigger] prefix_listed(r[i].1, q) implies registered_in(ps2, q, r[i].0) by {
        if q@ == g@ {
            if i < di1.len() {
                assert(di1[i].0 == d);
            }
            assert(ps2[kn].guid_prefix@ == q@);
        } else {
            assert(i < di1.len());
            assert(prefix_listed(di1[i].1, q));
            assert(prefix_listed(di[i].1, q));
            assert(registered_in(ps, q, di[i].0));
            let k = choose|k: int| 0 <= k < ps.len() && (#[trigger] ps[k]).guid_prefix@ == q@ && ps[k].domain_id == di[i].0;
            assert(k != k0);
            assert(ps2[k] == ps[k]);
        }
    }
    assert forall|k: int| 0 <= k < ps2.len() implies #[trigger] domain_lists(r, ps2[k].domain_id, ps2[k].guid_prefix) by {
        if k == kn {
        } else {
            assert(ps2[k] == ps[k]);
            assert(ps[k].guid_prefix@ != g@) by {
                if ps[k].guid_prefix@ == g@ {
                    assert(has_prefix(g)(ps[k]));
                    if k0 < 0 {
                    } else {
                        assert(ps[k0].guid_prefix@ == ps[k].guid_prefix@);
                    }
                }
            }
            assert(domain_lists(di, ps[k].domain_id, ps[k].guid_prefix));
            let i = choose|i: int| 0 <= i < di.len() && (#[trigger] di[i]).0 == ps[k].domain_id && prefix_listed(di[i].1, ps[k].guid_prefix);
            assert(prefix_listed(di1[i].1, ps[k].guid_prefix));
            assert(prefix_listed(r[i].1, ps[k].guid_prefix));
        }
    }
}

/// Removing a registered participant and taking its prefix off its
/// domain's list keeps the domain index matching the participants.
proof fn lemma_matches_remove(ps: Seq<ParticipantInfo>, di: Seq<(u32, Seq<[u8; 12]>)>, g: [u8; 12])
    requires
        unique_prefixes(ps),
        domain_index_matches(ps, di),
        first_index(ps, has_prefix(g)) >= 0,
    ensures
        domain_index_matches(
            ps.remove(first_index(ps, has_prefix(g))),
            domain_drop(di, ps[first_index(ps, has_prefix(g))].domain_id, g),
        ),
{
    lemma_first_index(ps, has_prefix(g));
    let k0 = first_index(ps, has_prefix(g));
    let d0 = ps[k0].domain_id;
    let ps2 = ps.remove(k0);
    lemma_domain_drop(di, d0, g);
    let r = domain_drop(di, d0, g);
    assert forall|i: int, q: [u8; 12]| 0 <= i < r.len() && #[trigger] prefix_listed(r[i].1, q) implies registered_in(ps2, q, r[i].0) by {
        assert(prefix_listed(di[i].1, q));
        if q@ == g@ {
            lemma_listed_only_under_own(ps, di, q, i);
            assert(has_prefix(q) =~= has_prefix(g));
        }
        assert(registered_in(ps, q, di[i].0));
        let k = choose|k: int| 0 <= k < ps.len() && (#[trigger] ps[k]).guid_prefix@ == q@ && ps[k].domain_id == di[i].0;
        assert(k != k0);
        let k2 = if k < k0 { k } else { k - 1 };
        assert(ps2[k2] == ps[k]);
    }
    assert forall|k: int| 0 <= k < ps2.len() implies #[trigger] domain_lists(r, ps2[k].domain_id, ps2[k].guid_prefix) by {
        let k1 = if k < k0 { k } else { k + 1 };
        assert(ps2[k] == ps[k1]);
        assert(ps[k1].guid_prefix@ != g@) by {
            if k1 < k0 {
                assert(!has_prefix(g)(ps[k1]));
            } else {
                assert(ps[k0].guid_prefix@ != ps[k1].guid_prefix@);
            }
        }
        assert(domain_lists(di, ps[k1].domain_id, ps[k1].guid_prefix));
        let i = choose|i: int| 0 <= i < di.len() && (#[trigger] di[i]).0 == ps[k1].domain_id && prefix_listed(di[i].1, ps[k1].guid_prefix);
        assert(prefix_listed(r[i].1, ps[k1].guid_prefix));
    }
}

/// Records that keep their prefixes and domains keep the index matching.
proof fn lemma_matches_same_data(ps: Seq<ParticipantInfo>, ps2: Seq<ParticipantInfo>, di: Seq<(u32, Seq<[u8; 12]>)>)
    requires
        domain_index_matches(ps, di),
        ps2.len() == ps.len(),
        forall|i: int| 0 <= i < ps.len() ==> same_participant_data(#[trigger] ps2[i], ps[i]),
    ensures
        domain_index_matches(ps2, di),
{
    assert forall|i: int, q: [u8; 12]| 0 <= i < di.len() && #[trigger] prefix_listed(di[i].1, q) implies registered_in(ps2, q, di[i].0) by {
        let k = choose|k: int| 0 <= k < ps.len() && (#[trigger] ps[k]).guid_prefix@ == q@ && ps[k].domain_id == di[i].0;
        assert(same_participant_data(ps2[k], ps[k]));
    }
    assert forall|k: int| 0 <= k < ps2.len() implies #[trigger] domain_lists(di, ps2[k].domain_id, ps2[k].guid_prefix) by {
        assert(same_participant_data(ps2[k], ps[k]));
        assert(domain_lists(di, ps[k].domain_id, ps[k].guid_prefix));
        let i = choose|i: int| 0 <= i < di.len() && (#[trigger] di[i]).0 == ps[k].domain_id && prefix_listed(di[i].1, ps[k].guid_prefix);
        let x = choose|x: int| 0 <= x < di[i].1.len() && (#[trigger] di[i].1[x])@ == ps[k].guid_prefix@;
        assert(prefix_listed(di[i].1, ps2[k].guid_prefix));
    }
}

// ---------------------------------------------------------------------------
// The topic index lists each endpoint under its topic

/// `g` is on the list.
pub open spec fn guid_listed(l: Seq<Guid>, g: Guid) -> bool {
    exists|x: int| 0 <= x < l.len() && same_guid(#[trigger] l[x], g)
}

/// No GUID is on the list twice.
pub open spec fn distinct_guids(l: Seq<Guid>) -> bool {
    forall|x: int, y: int| 0 <= x < y < l.len() ==> !same_guid(#[trigger] l[x], #[trigger] l[y])
}

/// An endpoint with GUID `g` is registered on topic `t`.
pub open spec fn registered_on(es: Seq<EndpointInfo>, g: Guid, t: Seq<char>) -> bool {
    exists|k: int| 0 <= k < es.len() && same_guid((#[trigger] es[k]).guid, g) && es[k].topic_name@ == t
}

/// Topic `t` lists `g` in the index.
pub open spec fn topic_lists(ti: Seq<(Seq<char>, Seq<Guid>)>, t: Seq<char>, g: Guid) -> bool {
    exists|i: int| 0 <= i < ti.len() && (#[trigger] ti[i]).0 == t && guid_listed(ti[i].1, g)
}

/// The topic index lists every registered endpoint under its topic, lists
/// nothing else, and lists no GUID twice under a topic; each topic has one
/// entry.
pub open spec fn topic_index_matches(es: Seq<EndpointInfo>, ti: Seq<(Seq<char>, Seq<Guid>)>) -> bool {
    &&& forall|i: int, j: int| 0 <= i < j < ti.len() ==> (#[trigger] ti[i]).0 != (#[trigger] ti[j]).0
    &&& forall|i: int| 0 <= i < ti.len() ==> distinct_guids(#[trigger] ti[i].1)
    &&& forall|i: int, g: Guid| 0 <= i < ti.len() && #[trigger] guid_listed(ti[i].1, g) ==> registered_on(es, g, ti[i].0)
    &&& forall|k: int| 0 <= k < es.len() ==> #[trigger] topic_lists(ti, es[k].topic_name@, es[k].guid)
}

proof fn lemma_filter_guid(l: Seq<Guid>, g: Guid)
    ensures
        forall|q: Guid| #[trigger] guid_listed(l.filter(other_guid(g)), q) <==> (guid_listed(l, q) && !same_guid(q, g)),
        distinct_guids(l) ==> distinct_guids(l.filter(other_guid(g))),
    decreases l.len(),
{
    reveal_with_fuel(Seq::filter, 1);
    if l.len() > 0 {
        let r = l.drop_last();
        let e = l.last();
        lemma_filter_guid(r, g);
        let f = l.filter(other_guid(g));
        let fr = r.filter(other_guid(g));
        assert forall|q: Guid| #[trigger] guid_listed(f, q) <==> (guid_listed(l, q) && !same_guid(q, g)) by {
            if guid_listed(l, q) && !same_guid(q, g) {
                let x = choose|x: int| 0 <= x < l.len() && same_guid(#[trigger] l[x], q);
                if x < l.len() - 1 {
                    assert(r[x] == l[x]);
                    assert(guid_listed(r, q));
                    assert(guid_listed(fr, q));
                    let y = choose|y: int| 0 <= y < fr.len() && same_guid(#[trigger] fr[y], q);
                    assert(f[y] == fr[y]);
                } else {
                    assert(other_guid(g)(e));
                    assert(f[fr.len() as int] == e);
                }
            }
            if guid_listed(f, q) {
                let y = choose|y: int| 0 <= y < f.len() && same_guid(#[trigger] f[y], q);
                if y < fr.len() {
                    assert(f[y] == fr[y]);
                    assert(guid_listed(fr, q));
                    let x = choose|x: int| 0 <= x < r.len() && same_guid(#[trigger] r[x], q);
                    assert(l[x] == r[x]);
                } else {
                    assert(f[y] == e);
                    assert(l[l.len() - 1] == e);
                }
            }
        }
        if distinct_guids(l) {
            assert(distinct_guids(r)) by {
                assert forall|x: int, y: int| 0 <= x < y < r.len() implies !same_guid(#[trigger] r[x], #[trigger] r[y]) by {
                    assert(r[x] == l[x] && r[y] == l[y]);
                }
            }
            assert forall|x: int, y: int| 0 <= x < y < f.len() implies !same_guid(#[trigger] f[x], #[trigger] f[y]) by {
                if y < fr.len() {
                    assert(f[x] == fr[x] && f[y] == fr[y]);
                } else {
                    assert(f[y] == e);
                    assert(f[x] == fr[x]);
                    assert(guid_listed(fr, fr[x]));
                    if same_guid(f[x], e) {
                        let z = choose|z: int| 0 <= z < r.len() && same_guid(#[trigger] r[z], fr[x]);
                        assert(l[z] == r[z]);
                        assert(l[l.len() - 1] == e);
                    }
                }
            }
        }
    }
}

/// Taking `g` off the list of topic `t0`.
proof fn lemma_topic_drop(ti: Seq<(Seq<char>, Seq<Guid>)>, t0: Seq<char>, g: Guid)
    requires
        forall|i: int, j: int| 0 <= i < j < ti.len() ==> (#[trigger] ti[i]).0 != (#[trigger] ti[j]).0,
        forall|i: int| 0 <= i < ti.len() ==> distinct_guids(#[trigger] ti[i].1),
    ensures
        ({
            let r = topic_drop(ti, t0, g);
            &&& r.len() == ti.len()
            &&& forall|i: int| 0 <= i < r.len() ==> (#[trigger] r[i]).0 == ti[i].0
            &&& forall|i: int| 0 <= i < r.len() ==> distinct_guids(#[trigger] r[i].1)
            &&& forall|i: int, q: Guid| 0 <= i < r.len() ==> (#[trigger] guid_listed(r[i].1, q) <==> (
                guid_listed(ti[i].1, q) && !(ti[i].0 == t0 && same_guid(q, g))))
        }),
{
    lemma_first_index(ti, has_topic(t0));
    let t = first_index(ti, has_topic(t0));
    let r = topic_drop(ti, t0, g);
    if t >= 0 {
        lemma_filter_guid(ti[t].1, g);
        assert forall|i: int, q: Guid| 0 <= i < r.len() implies (#[trigger] guid_listed(r[i].1, q) <==> (
            guid_listed(ti[i].1, q) && !(ti[i].0 == t0 && same_guid(q, g)))) by {
            if i != t {
                assert(r[i] == ti[i]);
                if ti[i].0 == t0 {
                    if i < t {
                        assert(!has_topic(t0)(ti[i]));
                    } else {
                        assert(ti[t].0 != ti[i].0);
                    }
                }
            }
        }
    } else {
        assert forall|i: int, q: Guid| 0 <= i < r.len() implies (#[trigger] guid_listed(r[i].1, q) <==> (
            guid_listed(ti[i].1, q) && !(ti[i].0 == t0 && same_guid(q, g)))) by {
            assert(!has_topic(t0)(ti[i]));
        }
    }
}

/// Listing `g` last under topic `t`.
proof fn lemma_topic_put(ti: Seq<(Seq<char>, Seq<Guid>)>, t0: Seq<char>, g: Guid)
    requires
        forall|i: int, j: int| 0 <= i < j < ti.len() ==> (#[trigger] ti[i]).0 != (#[trigger] ti[j]).0,
        forall|i: int| 0 <= i < ti.len() ==> distinct_guids(#[trigger] ti[i].1),
    ensures
        ({
            let r = topic_put(ti, t0, g);
            &&& ti.len() <= r.len() <= ti.len() + 1
            &&& forall|i: int, j: int| 0 <= i < j < r.len() ==> (#[trigger] r[i]).0 != (#[trigger] r[j]).0
            &&& forall|i: int| 0 <= i < r.len() ==> distinct_guids(#[trigger] r[i].1)
            &&& forall|i: int| 0 <= i < ti.len() ==> (#[trigger] r[i]).0 == ti[i].0
            &&& forall|i: int, q: Guid| 0 <= i < ti.len() ==> (#[trigger] guid_listed(r[i].1, q) <==> (
                (guid_listed(ti[i].1, q) && !(ti[i].0 == t0 && same_guid(q, g))) || (ti[i].0 == t0 && same_guid(q, g))))
            &&& r.len() == ti.len() + 1 ==> r[ti.len() as int].0 == t0 && forall|q: Guid| #[trigger] guid_listed(r[ti.len() as int].1, q) <==> same_guid(q, g)
            &&& topic_lists(r, t0, g)
        }),
{
    lemma_first_index(ti, has_topic(t0));
    let t = first_index(ti, has_topic(t0));
    let r = topic_put(ti, t0, g);
    if t >= 0 {
        let l = ti[t].1;
        let f = l.filter(other_guid(g));
        lemma_filter_guid(l, g);
        let nl = f.push(g);
        assert(r[t].1 == nl);
        assert forall|q: Guid| #[trigger] guid_listed(nl, q) <==> (guid_listed(f, q) || same_guid(q, g)) by {
            if guid_listed(f, q) {
                let y = choose|y: int| 0 <= y < f.len() && same_guid(#[trigger] f[y], q);
                assert(nl[y] == f[y]);
            }
            if same_guid(q, g) {
                assert(nl[f.len() as int] == g);
            }
            if guid_listed(nl, q) && !same_guid(q, g) {
                let y = choose|y: int| 0 <= y < nl.len() && same_guid(#[trigger] nl[y], q);
                assert(y < f.len());
                assert(nl[y] == f[y]);
            }
        }
        assert(distinct_guids(nl)) by {
            assert forall|x: int, y: int| 0 <= x < y < nl.len() implies !same_guid(#[trigger] nl[x], #[trigger] nl[y]) by {
                if y == f.len() {
                    assert(nl[x] == f[x]);
                    assert(guid_listed(f, f[x]));
                } else {
                    assert(nl[x] == f[x] && nl[y] == f[y]);
                }
            }
        }
        assert(guid_listed(r[t].1, g));
        assert forall|i: int, q: Guid| 0 <= i < ti.len() implies (#[trigger] guid_listed(r[i].1, q) <==> (
            (guid_listed(ti[i].1, q) && !(ti[i].0 == t0 && same_guid(q, g))) || (ti[i].0 == t0 && same_guid(q, g)))) by {
            if i != t {
                assert(r[i] == ti[i]);
                if ti[i].0 == t0 {
                    if i < t {
                        assert(!has_topic(t0)(ti[i]));
                    } else {
                        assert(ti[t].0 != ti[i].0);
                    }
                }
            }
        }
    } else {
        assert forall|i: int, j: int| 0 <= i < j < r.len() implies (#[trigger] r[i]).0 != (#[trigger] r[j]).0 by {
            if j == ti.len() {
                assert(!has_topic(t0)(ti[i]));
            }
        }
        let nl = seq![g];
        assert(r[ti.len() as int] == (t0, nl));
        assert forall|q: Guid| #[trigger] guid_listed(nl, q) <==> same_guid(q, g) by {
            if same_guid(q, g) {
                assert(nl[0] == g);
            }
        }
        assert(guid_listed(nl, g));
        assert forall|i: int, q: Guid| 0 <= i < ti.len() implies (#[trigger] guid_listed(r[i].1, q) <==> (
            (guid_listed(ti[i].1, q) && !(ti[i].0 == t0 && same_guid(q, g))) || (ti[i].0 == t0 && same_guid(q, g)))) by {
            assert(r[i] == ti[i]);
            assert(!has_topic(t0)(ti[i]));
        }
    }
}

/// A GUID the index lists names a registered endpoint, so with unique
/// GUIDs it is listed only under that endpoint's topic.
proof fn lemma_tlisted_only_under_own(es: Seq<EndpointInfo>, ti: Seq<(Seq<char>, Seq<Guid>)>, g: Guid, i: int)
    requires
        unique_guids(es),
        topic_index_matches(es, ti),
        0 <= i < ti.len(),
        guid_listed(ti[i].1, g),
    ensures
        first_index(es, has_guid(g)) >= 0,
        ti[i].0 == es[first_index(es, has_guid(g))].topic_name@,
{
    lemma_first_index(es, has_guid(g));
    assert(registered_on(es, g, ti[i].0));
    let k = choose|k: int| 0 <= k < es.len() && same_guid((#[trigger] es[k]).guid, g) && es[k].topic_name@ == ti[i].0;
    let k0 = first_index(es, has_guid(g));
    assert(has_guid(g)(es[k]));
    if k0 != k {
        assert(same_guid(es[k0].guid, es[k].guid));
    }
}

/// Registering an endpoint record keeps the topic index matching the
/// endpoints.
proof fn lemma_tmatches_add(es: Seq<EndpointInfo>, ti: Seq<(Seq<char>, Seq<Guid>)>, info: EndpointInfo)
    requires
        unique_guids(es),
        topic_index_matches(es, ti),
    ensures
        topic_index_matches(endpoints_put(es, info), topic_reput(ti, es, info)),
{
    let g = info.guid;
    let t = info.topic_name@;
    lemma_first_index(es, has_guid(g));
    let k0 = first_index(es, has_guid(g));
    let es2 = endpoints_put(es, info);
    let ti1 = if k0 >= 0 { topic_drop(ti, es[k0].topic_name@, g) } else { ti };
    if k0 >= 0 {
        lemma_topic_drop(ti, es[k0].topic_name@, g);
    }
    assert forall|i: int| 0 <= i < ti1.len() implies !#[trigger] guid_listed(ti1[i].1, g) by {
        if guid_listed(ti[i].1, g) {
            lemma_tlisted_only_under_own(es, ti, g, i);
        }
    }
    assert(forall|i: int, j: int| 0 <= i < j < ti1.len() ==> (#[trigger] ti1[i]).0 != (#[trigger] ti1[j]).0);
    lemma_topic_put(ti1, t, g);
    let r = topic_put(ti1, t, g);
    assert(r == topic_reput(ti, es, info));
    let kn = if k0 >= 0 { k0 } else { es.len() as int };
    assert(es2[kn] == info);
    assert forall|i: int, q: Guid| 0 <= i < r.len() && #[trigger] guid_listed(r[i].1, q) implies registered_on(es2, q, r[i].0) by {
        if same_guid(q, g) {
            if i < ti1.len() {
                assert(ti1[i].0 == t);
            }
            assert(same_guid(es2[kn].guid, q));
        } else {
            assert(i < ti1.len());
            assert(guid_listed(ti1[i].1, q));
            assert(guid_listed(ti[i].1, q));
            assert(registered_on(es, q, ti[i].0));
            let k = choose|k: int| 0 <= k < es.len() && same_guid((#[trigger] es[k]).guid, q) && es[k].topic_name@ == ti[i].0;
            assert(k != k0);
            assert(es2[k] == es[k]);
        }
    }
    assert forall|k: int| 0 <= k < es2.len() implies #[trigger] topic_lists(r, es2[k].topic_name@, es2[k].guid) by {
        if k == kn {
        } else {
            assert(es2[k] == es[k]);
            assert(!same_guid(es[k].guid, g)) by {
                if same_guid(es[k].guid, g) {
                    assert(has_guid(g)(es[k]));
                    if k0 >= 0 {
                        assert(same_guid(es[k0].guid, es[k].guid));
                    }
                }
            }
            assert(topic_lists(ti, es[k].topic_name@, es[k].guid));
            let i = choose|i: int| 0 <= i < ti.len() && (#[trigger] ti[i]).0 == es[k].topic_name@ && guid_listed(ti[i].1, es[k].guid);
            assert(guid_listed(ti1[i].1, es[k].guid));
            assert(guid_listed(r[i].1, es[k].guid));
        }
    }
}

/// Removing a registered endpoint and taking its GUID off its topic's list
/// keeps the topic index matching the endpoints.
proof fn lemma_tmatches_remove_at(es: Seq<EndpointInfo>, ti: Seq<(Seq<char>, Seq<Guid>)>, k0: int, g0: Guid)
    requires
        unique_guids(es),
        topic_index_matches(es, ti),
        0 <= k0 < es.len(),
        same_guid(g0, es[k0].guid),
    ensures
        topic_index_matches(es.remove(k0), topic_drop(ti, es[k0].topic_name@, g0)),
{
    let g = es[k0].guid;
    assert(other_guid(g0) =~= other_guid(g));
    assert(has_topic(es[k0].topic_name@) == has_topic(es[k0].topic_name@));
    let t0 = es[k0].topic_name@;
    let es2 = es.remove(k0);
    lemma_topic_drop(ti, t0, g);
    let r = topic_drop(ti, t0, g);
    lemma_first_index(es, has_guid(g));
    assert(first_index(es, has_guid(g)) == k0) by {
        let f = first_index(es, has_guid(g));
        assert(has_guid(g)(es[k0]));
        if f != k0 {
            assert(same_guid(es[f].guid, es[k0].guid));
        }
    }
    assert forall|i: int, q: Guid| 0 <= i < r.len() && #[trigger] guid_listed(r[i].1, q) implies registered_on(es2, q, r[i].0) by {
        assert(guid_listed(ti[i].1, q));
        if same_guid(q, g) {
            lemma_tlisted_only_under_own(es, ti, q, i);
            assert(has_guid(q) =~= has_guid(g));
        }
        assert(registered_on(es, q, ti[i].0));
        let k = choose|k: int| 0 <= k < es.len() && same_guid((#[trigger] es[k]).guid, q) && es[k].topic_name@ == ti[i].0;
        assert(k != k0);
        let k2 = if k < k0 { k } else { k - 1 };
        assert(es2[k2] == es[k]);
    }
    assert forall|k: int| 0 <= k < es2.len() implies #[trigger] topic_lists(r, es2[k].topic_name@, es2[k].guid) by {
        let k1 = if k < k0 { k } else { k + 1 };
        assert(es2[k] == es[k1]);
        assert(!same_guid(es[k1].guid, g)) by {
            if k1 < k0 {
                assert(!same_guid(es[k1].guid, es[k0].guid));
            } else {
                assert(!same_guid(es[k0].guid, es[k1].guid));
            }
        }
        assert(topic_lists(ti, es[k1].topic_name@, es[k1].guid));
        let i = choose|i: int| 0 <= i < ti.len() && (#[trigger] ti[i]).0 == es[k1].topic_name@ && guid_listed(ti[i].1, es[k1].guid);
        assert(guid_listed(r[i].1, es[k1].guid));
    }
}

proof fn lemma_put_participant_unique(ps: Seq<ParticipantInfo>, info: ParticipantInfo)
    requires
        unique_prefixes(ps),
    ensures
        unique_prefixes(participants_put(ps, info)),
{
    lemma_first_index(ps, has_prefix(info.guid_prefix));
    let k = first_index(ps, has_prefix(info.guid_prefix));
    let r = participants_put(ps, info);
    assert forall|i: int, j: int| 0 <= i < j < r.len() implies (#[trigger] r[i]).guid_prefix@ != (#[trigger] r[j]).guid_prefix@ by {
        if k >= 0 {
            if i == k {
                assert(ps[k].guid_prefix@ == info.guid_prefix@);
            }
            if j == k {
                assert(ps[k].guid_prefix@ == info.guid_prefix@);
            }
        } else {
            if j == ps.len() {
                assert(!has_prefix(info.guid_prefix)(ps[i]));
            }
        }
    }
}

proof fn lemma_put_endpoint_unique(es: Seq<EndpointInfo>, info: EndpointInfo)
    requires
        unique_guids(es),
    ensures
        unique_guids(endpoints_put(es, info)),
{
    lemma_first_index(es, has_guid(info.guid));
    let k = first_index(es, has_guid(info.guid));
    let r = endpoints_put(es, info);
    assert forall|i: int, j: int| 0 <= i < j < r.len() implies !same_guid((#[trigger] r[i]).guid, (#[trigger] r[j]).guid) by {
        if k >= 0 {
            if i == k {
                assert(same_guid(es[k].guid, info.guid));
            }
            if j == k {
                assert(same_guid(es[k].guid, info.guid));
            }
        } else {
            if j == es.len() {
                assert(!has_guid(info.guid)(es[i]));
            }
        }
    }
}

proof fn lemma_remove_unique_prefixes(ps: Seq<ParticipantInfo>, k: int)
    requires
        unique_prefixes(ps),
        0 <= k < ps.len(),
    ensures
        unique_prefixes(ps.remove(k)),
        forall|i: int| 0 <= i < ps.remove(k).len() ==> (#[trigger] ps.remove(k)[i]).guid_prefix@ != ps[k].guid_prefix@,
{
    let r = ps.remove(k);
    assert forall|i: int, j: int| 0 <= i < j < r.len() implies (#[trigger] r[i]).guid_prefix@ != (#[trigger] r[j]).guid_prefix@ by {
        let a = if i < k { i } else { i + 1 };
        let b = if j < k { j } else { j + 1 };
        assert(r[i] == ps[a]);
        assert(r[j] == ps[b]);
    }
    assert forall|i: int| 0 <= i < r.len() implies (#[trigger] r[i]).guid_prefix@ != ps[k].guid_prefix@ by {
        let a = if i < k { i } else { i + 1 };
        assert(r[i] == ps[a]);
    }
}

proof fn lemma_filter_unique_guids(es: Seq<EndpointInfo>, p: spec_fn(EndpointInfo) -> bool)
    requires
        unique_guids(es),
    ensures
        unique_guids(es.filter(p)),
        forall|i: int| 0 <= i < es.filter(p).len() ==> p(#[trigger] es.filter(p)[i]) && es.contains(es.filter(p)[i]),
    decreases es.len(),
{
    reveal_with_fuel(Seq::filter, 1);
    if es.len() > 0 {
        let rest = es.drop_last();
        assert(unique_guids(rest)) by {
            assert forall|i: int, j: int| 0 <= i < j < rest.len() implies !same_guid((#[trigger] rest[i]).guid, (#[trigger] rest[j]).guid) by {
                assert(rest[i] == es[i]);
                assert(rest[j] == es[j]);
            }
        }
        lemma_filter_unique_guids(rest, p);
        let f = rest.filter(p);
        assert forall|i: int| 0 <= i < f.len() implies #[trigger] es.contains(f[i]) by {
            assert(rest.contains(f[i]));
            let w = choose|w: int| 0 <= w < rest.len() && rest[w] == f[i];
            assert(es[w] == f[i]);
        }
        if p(es.last()) {
            let r = f.push(es.last());
            assert forall|i: int, j: int| 0 <= i < j < r.len() implies !same_guid((#[trigger] r[i]).guid, (#[trigger] r[j]).guid) by {
                if j == f.len() {
                    let w = choose|w: int| 0 <= w < rest.len() && rest[w] == f[i];
                    assert(es[w] == r[i]);
                    assert(es[es.len() - 1] == r[j]);
                } else {
                    assert(r[i] == f[i]);
                    assert(r[j] == f[j]);
                }
            }
            assert forall|i: int| 0 <= i < r.len() implies p(#[trigger] r[i]) && es.contains(r[i]) by {
                if i == f.len() {
                    assert(es[es.len() - 1] == r[i]);
                } else {
                    assert(r[i] == f[i]);
                }
            }
        }
    }
}

impl ParticipantRegistry {
    /// The registry's invariant: a prefix names one participant and a GUID
    /// one endpoint, and the domain index lists each participant once,
    /// under its domain only.
    pub closed spec fn wf(&self) -> bool {
        &&& unique_prefixes(self.participants@)
        &&& unique_guids(self.endpoints@)
        &&& domain_index_matches(self.participants@, self.domain_index())
        &&& topic_index_matches(self.endpoints@, self.topic_index())
    }

    /// In every registry the domain index lists exactly the registered
    /// participants, each once and under its own domain.
    pub proof fn law_domain_index_matches(r: &Self)
        requires
            r.wf(),
        ensures
            domain_index_matches(r.participants_seq(), r.domain_index()),
    {
    }

    /// In every registry the topic index lists exactly the registered
    /// endpoints, each once and under its own topic.
    pub proof fn law_topic_index_matches(r: &Self)
        requires
            r.wf(),
        ensures
            topic_index_matches(r.endpoints_seq(), r.topic_index()),
    {
    }

    /// Adds a participant, or replaces the one with the same prefix; its
    /// prefix leaves the earlier record's domain list and is listed last
    /// under its domain.
    pub fn add_participant(&mut self, info: ParticipantInfo)
        requires
            old(self).wf(),
        ensures
            final(self).wf(),
            final(self).participants_seq() == participants_put(old(self).participants_seq(), info),
            final(self).domain_index() == domain_reput(old(self).domain_index(), old(self).participants_seq(), info),
            final(self).endpoints_seq() == old(self).endpoints_seq(),
            final(self).topic_index() == old(self).topic_index(),
    {
        let gp = info.guid_prefix;
        let d = info.domain_id;
        let ghost di0 = self.domain_index();
        match self.find_participant(&gp) {
            Some(k) => {
                let d0 = self.participants[k].domain_id;
                self.drop_from_domain(d0, &gp);
            },
            None => {},
        }
        let ghost di = self.domain_index();
        match self.find_domain(d) {
            Some(k) => {
                let mut list = prefixes_without(&self.domain_index[k].1, &gp);
                list.push(gp);
                let ghost l = list@;
                self.domain_index.set(k, (d, list));
                assert(self.domain_index() =~= di.update(k as int, (d, l)));
            },
            None => {
                let mut list: Vec<[u8; 12]> = Vec::new();
                list.push(gp);
                let ghost l = list@;
                self.domain_index.push((d, list));
                assert(l =~= seq![gp]);
                assert(self.domain_index() =~= di.push((d, seq![gp])));
            },
        }
        proof {
            lemma_put_participant_unique(self.participants@, info);
            lemma_matches_add(self.participants@, di0, info);
        }
        match self.find_participant(&gp) {
            Some(k) => {
                self.participants.set(k, info);
            },
            None => {
                self.participants.push(info);
            },
        }
    }

    /// Removes an endpoint, and its GUID from its topic's list.
    pub fn remove_endpoint(&mut self, guid: &Guid) -> (r: Option<EndpointInfo>)
        requires
            old(self).wf(),
        ensures
            final(self).wf(),
            final(self).participants_seq() == old(self).participants_seq(),
            final(self).domain_index() == old(self).domain_index(),
            ({
                let k = first_index(old(self).endpoints_seq(), has_guid(*guid));
                match r {
                    Some(e) => {
                        &&& k >= 0
                        &&& e == old(self).endpoints_seq()[k]
                        &&& final(self).endpoints_seq() == old(self).endpoints_seq().remove(k)
                        &&& final(self).topic_index() == topic_drop(old(self).topic_index(), e.topic_name@, *guid)
                    },
                    None => {
                        &&& k == -1
                        &&& final(self).endpoints_seq() == old(self).endpoints_seq()
                        &&& final(self).topic_index() == old(self).topic_index()
                    },
                }
            }),
    {
        match self.find_endpoint(guid) {
            Some(k) => {
                let ghost es = self.endpoints@;
                let ghost ti = self.topic_index();
                proof {
                    lemma_first_index(es, has_guid(*guid));
                    lemma_tmatches_remove_at(es, ti, k as int, *guid);
                }
                let info = self.endpoints.remove(k);
                proof {
                    assert forall|i: int, j: int| 0 <= i < j < self.endpoints@.len() implies !same_guid((#[trigger] self.endpoints@[i]).guid, (#[trigger] self.endpoints@[j]).guid) by {
                        let a = if i < k { i } else { i + 1 };
                        let b = if j < k { j } else { j + 1 };
                        assert(self.endpoints@[i] == es[a]);
                        assert(self.endpoints@[j] == es[b]);
                    }
                }
                self.drop_from_topic(info.topic_name.as_str(), guid);
                Some(info)
            },
            None => None,
        }
    }

    fn drop_from_domain(&mut self, d: u32, gp: &[u8; 12])
        ensures
            final(self).participants@ == old(self).participants@,
            final(self).endpoints@ == old(self).endpoints@,
            final(self).topic_index@ == old(self).topic_index@,
            final(self).domain_index() == domain_drop(old(self).domain_index(), d, *gp),
    {
        let ghost di = self.domain_index();
        match self.find_domain(d) {
            Some(t) => {
                let list = prefixes_without(&self.domain_index[t].1, gp);
                let ghost l = list@;
                let dd = self.domain_index[t].0;
                assert(dd == d) by {
                    lemma_first_index(di, has_domain(d));
                }
                self.domain_index.set(t, (dd, list));
                assert(self.domain_index() =~= di.update(t as int, (d, l)));
            },
            None => {},
        }
    }

    fn drop_from_topic(&mut self, topic: &str, guid: &Guid)
        ensures
            final(self).participants@ == old(self).participants@,
            final(self).endpoints@ == old(self).endpoints@,
            final(self).domain_index@ == old(self).domain_index@,
            final(self).topic_index() == topic_drop(old(self).topic_index(), topic@, *guid),
    {
        let ghost ti = self.topic_index();
        match self.find_topic(topic) {
            Some(t) => {
                let list = guids_without(&self.topic_index[t].1, guid);
                let name = self.topic_index[t].0.clone();
                let ghost l = list@;
                assert(name@ == topic@) by {
                    lemma_first_index(ti, has_topic(topic@));
                }
                self.topic_index.set(t, (name, list));
                assert(self.topic_index() =~= ti.update(t as int, (topic@, l)));
            },
            None => {},
        }
    }

    /// Removes a participant, its prefix from its domain's list, and all its
    /// endpoints.
    pub fn remove_participant(&mut self, guid_prefix: &[u8; 12]) -> (r: Option<ParticipantInfo>)
        requires
            old(self).wf(),
        ensures
            final(self).wf(),
            ({
                let k = first_index(old(self).participants_seq(), has_prefix(*guid_prefix));
                match r {
                    Some(p) => {
                        &&& k >= 0
                        &&& p == old(self).participants_seq()[k]
                        &&& final(self).participants_seq() == old(self).participants_seq().remove(k)
                        &&& final(self).domain_index() == domain_drop(old(self).domain_index(), p.domain_id, *guid_prefix)
                        &&& final(self).endpoints_seq() == old(self).endpoints_seq().filter(not_of_prefix(*guid_prefix))
                        &&& final(self).topic_index() == topic_drop_prefix(old(self).topic_index(), old(self).endpoints_seq(), *guid_prefix)
                    },
                    None => {
                        &&& k == -1
                        &&& final(self).participants_seq() == old(self).participants_seq()
                        &&& final(self).domain_index() == old(self).domain_index()
                        &&& final(self).endpoints_seq() == old(self).endpoints_seq()
                        &&& final(self).topic_index() == old(self).topic_index()
                    },
                }
            }),
            forall|i: int| 0 <= i < final(self).participants_seq().len() ==> (#[trigger] final(self).participants_seq()[i]).guid_prefix@ != guid_prefix@,
            r is Some ==> forall|i: int| 0 <= i < final(self).endpoints_seq().len() ==> (#[trigger] final(self).endpoints_seq()[i]).guid.prefix@ != guid_prefix@,
    {
        let k = match self.find_participant(guid_prefix) {
            Some(k) => k,
            None => {
                proof {
                    lemma_first_index(self.participants@, has_prefix(*guid_prefix));
                }
                return None;
            },
        };
        let ghost ps = self.participants@;
        proof {
            lemma_remove_unique_prefixes(ps, k as int);
            lemma_first_index(ps, has_prefix(*guid_prefix));
        }
        let info = self.participants.remove(k);
        // Domain index.
        let ghost di = self.domain_index();
        match self.find_domain(info.domain_id) {
            Some(t) => {
                let list = prefixes_without(&self.domain_index[t].1, guid_prefix);
                let ghost l = list@;
                let dd = self.domain_index[t].0;
                assert(dd == info.domain_id) by {
                    lemma_first_index(di, has_domain(info.domain_id));
                }
                self.domain_index.set(t, (dd, list));
                assert(self.domain_index() =~= di.update(t as int, (info.domain_id, l)));
            },
            None => {},
        }
        // Endpoints.
        let ghost di2 = self.domain_index();
        assert(di2 == domain_drop(di, info.domain_id, *guid_prefix));
        let ghost es = self.endpoints@;
        let ghost ti = self.topic_index();
        let n = self.endpoints.len();
        let mut i: usize = 0;
        let mut j: usize = 0;
        assert(es.take(0) =~= Seq::<EndpointInfo>::empty());
        assert(es.skip(0) =~= es);
        while j < n
            invariant
                n == es.len(),
                j <= es.len(),
                i <= j,
                self.participants@ == ps.remove(k as int),
                k < ps.len(),
                info == ps[k as int],
                ps[k as int].guid_prefix@ == guid_prefix@,
                unique_prefixes(ps.remove(k as int)),
                forall|x: int| 0 <= x < ps.remove(k as int).len() ==> (#[trigger] ps.remove(k as int)[x]).guid_prefix@ != ps[k as int].guid_prefix@,
                self.domain_index() == di2,
                self.endpoints@ == es.take(j as int).filter(not_of_prefix(*guid_prefix)) + es.skip(j as int),
                i == es.take(j as int).filter(not_of_prefix(*guid_prefix)).len(),
                self.topic_index() == topic_drop_prefix(ti, es.take(j as int), *guid_prefix),
                unique_guids(es),
                unique_guids(self.endpoints@),
                topic_index_matches(self.endpoints@, self.topic_index()),
            decreases es.len() - j,
        {
            let ghost f = es.take(j as int).filter(not_of_prefix(*guid_prefix));
            proof {
                lemma_filter_unique_guids(es.take(j as int), not_of_prefix(*guid_prefix));
                reveal_with_fuel(Seq::filter, 1);
                assert(es.take(j + 1).drop_last() =~= es.take(j as int));
                assert(es.take(j + 1).last() == es[j as int]);
                assert(self.endpoints@[i as int] == es[j as int]);
                assert(es.skip(j as int) =~= seq![es[j as int]] + es.skip(j + 1));
            }
            if prefix_eq(&self.endpoints[i].guid.prefix, guid_prefix) {
                let ghost cur_es = self.endpoints@;
                let ghost cur_ti = self.topic_index();
                proof {
                    lemma_tmatches_remove_at(cur_es, cur_ti, i as int, cur_es[i as int].guid);
                    assert forall|x: int, y: int| 0 <= x < y < cur_es.remove(i as int).len() implies !same_guid((#[trigger] cur_es.remove(i as int)[x]).guid, (#[trigger] cur_es.remove(i as int)[y]).guid) by {
                        let a = if x < i { x } else { x + 1 };
                        let b = if y < i { y } else { y + 1 };
                        assert(cur_es.remove(i as int)[x] == cur_es[a]);
                        assert(cur_es.remove(i as int)[y] == cur_es[b]);
                    }
                }
                let e = self.endpoints.remove(i);
                self.drop_from_topic(e.topic_name.as_str(), &e.guid);
                proof {
                    assert(self.endpoints@ =~= f + es.skip(j + 1));
                }
            } else {
                proof {
                    assert(self.endpoints@ =~= f.push(es[j as int]) + es.skip(j + 1));
                }
                i = i + 1;
            }
            j = j + 1;
        }
        proof {
            assert(es.take(es.len() as int) =~= es);
            assert(es.skip(es.len() as int) =~= Seq::<EndpointInfo>::empty());
            assert(self.endpoints@ =~= es.filter(not_of_prefix(*guid_prefix)));
            lemma_filter_unique_guids(es, not_of_prefix(*guid_prefix));
            lemma_matches_remove(ps, di, *guid_prefix);
        }
        Some(info)
    }
}

pub open spec fn is_writer_endpoint() -> spec_fn(EndpointInfo) -> bool {
    |e: EndpointInfo| e.is_writer
}

pub open spec fn is_reader_endpoint() -> spec_fn(EndpointInfo) -> bool {
    |e: EndpointInfo| !e.is_writer
}

/// The endpoints listed under a topic, in list order.
pub open spec fn topic_endpoints(es: Seq<EndpointInfo>, ti: Seq<(Seq<char>, Seq<Guid>)>, t: Seq<char>) -> Seq<EndpointInfo> {
    let k = first_index(ti, has_topic(t));
    if k >= 0 {
        endpoints_listed(es, ti[k].1)
    } else {
        Seq::empty()
    }
}

/// The participants listed under a domain, in list order.
pub open spec fn domain_participants(ps: Seq<ParticipantInfo>, di: Seq<(u32, Seq<[u8; 12]>)>, d: u32) -> Seq<ParticipantInfo> {
    let k = first_index(di, has_domain(d));
    if k >= 0 {
        participants_listed(ps, di[k].1)
    } else {
        Seq::empty()
    }
}

/// The prefixes, in order, of the participants of `ps` whose lease has
/// passed: those for which the time `elapsed` since they were last seen is
/// not within `lease`.
pub open spec fn lease_expired(ps: Seq<ParticipantInfo>, elapsed: Seq<Duration>, lease: Duration) -> Seq<[u8; 12]>
    decreases ps.len(),
{
    if ps.len() == 0 || elapsed.len() != ps.len() {
        Seq::empty()
    } else {
        let r = lease_expired(ps.drop_last(), elapsed.drop_last(), lease);
        if !duration_at_least(lease, elapsed.last()) {
            r.push(ps.last().guid_prefix)
        } else {
            r
        }
    }
}

/// Every listed prefix names a participant of `ps`.
pub open spec fn all_registered(exp: Seq<[u8; 12]>, ps: Seq<ParticipantInfo>) -> bool {
    forall|x: int| 0 <= x < exp.len() ==> #[trigger] registered_prefix(ps, exp[x])
}

pub open spec fn registered_prefix(ps: Seq<ParticipantInfo>, gp: [u8; 12]) -> bool {
    exists|j: int| 0 <= j < ps.len() && (#[trigger] ps[j]).guid_prefix@ == gp@
}

/// No listed prefix names a participant of `ps`.
pub open spec fn none_registered(exp: Seq<[u8; 12]>, ps: Seq<ParticipantInfo>) -> bool {
    forall|x: int, j: int| 0 <= x < exp.len() && 0 <= j < ps.len() ==> (#[trigger] ps[j]).guid_prefix@ != (#[trigger] exp[x])@
}

pub open spec fn listed_prefix(exp: Seq<[u8; 12]>, gp: [u8; 12]) -> bool {
    exists|x: int| 0 <= x < exp.len() && (#[trigger] exp[x])@ == gp@
}

/// Each participant of `before` is still in `after`, or its prefix is listed.
pub open spec fn kept_or_listed(before: Seq<ParticipantInfo>, after: Seq<ParticipantInfo>, exp: Seq<[u8; 12]>) -> bool {
    forall|j: int| 0 <= j < before.len() ==> (exists|y: int| 0 <= y < after.len() && #[trigger] after[y] == before[j])
        || listed_prefix(exp, before[j].guid_prefix)
}

pub open spec fn deref_participants(v: Seq<&ParticipantInfo>) -> Seq<ParticipantInfo> {
    v.map_values(|p: &ParticipantInfo| *p)
}

pub open spec fn deref_endpoints(v: Seq<&EndpointInfo>) -> Seq<EndpointInfo> {
    v.map_values(|e: &EndpointInfo| *e)
}

impl ParticipantRegistry {
    /// Marks the participant with this prefix as seen now, if registered.
    pub fn touch_participant(&mut self, guid_prefix: &[u8; 12])
        requires
            old(self).wf(),
        ensures
            final(self).wf(),
            final(self).participants_seq().len() == old(self).participants_seq().len(),
            forall|i: int| 0 <= i < old(self).participants_seq().len() ==> same_participant_data(
                #[trigger] final(self).participants_seq()[i],
                old(self).participants_seq()[i],
            ),
            forall|i: int| 0 <= i < old(self).participants_seq().len() && i != first_index(old(self).participants_seq(), has_prefix(*guid_prefix))
                ==> #[trigger] final(self).participants_seq()[i] == old(self).participants_seq()[i],
            final(self).endpoints_seq() == old(self).endpoints_seq(),
            final(self).domain_index() == old(self).domain_index(),
            final(self).topic_index() == old(self).topic_index(),
    {
        match self.find_participant(guid_prefix) {
            Some(k) => {
                let ghost ps = self.participants@;
                let mut p = self.participants.remove(k);
                p.touch();
                self.participants.insert(k, p);
                proof {
                    assert(self.participants@ =~= ps.update(k as int, p));
                    assert forall|i: int, j: int| 0 <= i < j < self.participants@.len() implies (#[trigger] self.participants@[i]).guid_prefix@ != (#[trigger] self.participants@[j]).guid_prefix@ by {
                        assert(ps[i].guid_prefix@ != ps[j].guid_prefix@);
                    }
                    assert forall|i: int| 0 <= i < ps.len() implies same_participant_data(#[trigger] self.participants@[i], ps[i]) by {
                        if i != k {
                            assert(self.participants@[i] == ps[i]);
                        }
                    }
                    lemma_matches_same_data(ps, self.participants@, self.domain_index());
                }
            },
            None => {},
        }
    }

    /// All participants.
    pub fn participants(&self) -> (r: &[ParticipantInfo])
        ensures
            r@ == self.participants_seq(),
    {
        self.participants.as_slice()
    }

    /// The number of participants.
    pub fn participant_count(&self) -> (n: usize)
        ensures
            n == self.participants_seq().len(),
    {
        self.participants.len()
    }

    /// The participant with this prefix.
    pub fn get_participant(&self, guid_prefix: &[u8; 12]) -> (r: Option<&ParticipantInfo>)
        ensures
            ({
                let k = first_index(self.participants_seq(), has_prefix(*guid_prefix));
                match r {
                    Some(p) => k >= 0 && *p == self.participants_seq()[k],
                    None => k == -1,
                }
            }),
    {
        match self.find_participant(guid_prefix) {
            Some(k) => Some(&self.participants[k]),
            None => None,
        }
    }

    /// The registered participants listed under a domain, in list order.
    pub fn participants_in_domain(&self, domain_id: u32) -> (r: Vec<&ParticipantInfo>)
        ensures
            deref_participants(r@) == domain_participants(self.participants_seq(), self.domain_index(), domain_id),
    {
        let mut r: Vec<&ParticipantInfo> = Vec::new();
        match self.find_domain(domain_id) {
            Some(t) => {
                let list = &self.domain_index[t].1;
                let ghost lv = list@;
                assert(lv == self.domain_index()[t as int].1);
                let mut i: usize = 0;
                while i < list.len()
                    invariant
                        i <= lv.len(),
                        lv == list@,
                        deref_participants(r@) == participants_listed(self.participants@, lv.take(i as int)),
                    decreases lv.len() - i,
                {
                    let ghost before = r@;
                    let gp = list[i];
                    proof {
                        let t2 = lv.take(i + 1);
                        assert(t2.drop_last() =~= lv.take(i as int));
                        assert(t2.last() == gp);
                        reveal_with_fuel(Seq::filter_map, 1);
                    }
                    match self.find_participant(&gp) {
                        Some(k) => {
                            r.push(&self.participants[k]);
                            assert(deref_participants(r@) =~= deref_participants(before) + seq![self.participants@[k as int]]);
                        },
                        None => {},
                    }
                    i = i + 1;
                }
                assert(lv.take(lv.len() as int) =~= lv);
            },
            None => {
                assert(deref_participants(r@) =~= Seq::<ParticipantInfo>::empty());
            },
        }
        r
    }

    /// Removes the participants whose lease has expired (more than
    /// `lease_duration` since they were last seen, by the clock) with their
    /// endpoints, and returns their prefixes. Whatever the clock says, every
    /// prefix returned was registered and is no longer, and every other
    /// participant stays; the prefixes returned are, in registry order,
    /// those of the participants whose clock reading exceeds the lease.
    pub fn remove_expired(&mut self, lease_duration: Duration) -> (expired: Vec<[u8; 12]>)
        requires
            old(self).wf(),
        ensures
            final(self).wf(),
            all_registered(expired@, old(self).participants_seq()),
            none_registered(expired@, final(self).participants_seq()),
            kept_or_listed(old(self).participants_seq(), final(self).participants_seq(), expired@),
            exists|elapsed: Seq<Duration>| {
                &&& elapsed.len() == old(self).participants_seq().len()
                &&& expired@ == lease_expired(old(self).participants_seq(), elapsed, lease_duration)
            },
    {
        let ghost ps0 = self.participants@;
        let mut expired: Vec<[u8; 12]> = Vec::new();
        let mut i: usize = 0;
        let ghost mut readings: Seq<Duration> = Seq::empty();
        assert(ps0.take(0) =~= Seq::<ParticipantInfo>::empty());
        while i < self.participants.len()
            invariant
                i <= self.participants@.len(),
                self.participants@ == ps0,
                all_registered(expired@, ps0.take(i as int)),
                readings.len() == i,
                expired@ == lease_expired(ps0.take(i as int), readings, lease_duration),
            decreases self.participants@.len() - i,
        {
            let ghost before = expired@;
            let passed = self.participants[i].is_expired(lease_duration);
            let ghost e = choose|e: Duration| passed == !duration_at_least(lease_duration, e);
            if passed {
                expired.push(self.participants[i].guid_prefix);
            }
            proof {
                let t0 = ps0.take(i + 1);
                assert(t0.drop_last() =~= ps0.take(i as int));
                assert(readings.push(e).drop_last() =~= readings);
                assert(t0.last() == ps0[i as int]);
                readings = readings.push(e);
            }
            proof {
                let t = ps0.take(i + 1);
                assert forall|x: int| 0 <= x < expired@.len() implies #[trigger] registered_prefix(t, expired@[x]) by {
                    if x < before.len() {
                        assert(expired@[x] == before[x]);
                        assert(registered_prefix(ps0.take(i as int), before[x]));
                        let j = choose|j: int| 0 <= j < i && (#[trigger] ps0.take(i as int)[j]).guid_prefix@ == before[x]@;
                        assert(t[j] == ps0.take(i as int)[j]);
                    } else {
                        assert(t[i as int].guid_prefix@ == expired@[x]@);
                    }
                }
            }
            i = i + 1;
        }
        assert(ps0.take(i as int) =~= ps0);
        let ghost listed = expired@;
        proof {
            assert forall|j: int| 0 <= j < ps0.len() implies (exists|y: int| 0 <= y < self.participants@.len()
                && #[trigger] self.participants@[y] == ps0[j])
                || listed_prefix(expired@, ps0[j].guid_prefix) by {
                assert(self.participants@[j] == ps0[j]);
            }
        }
        let mut n: usize = 0;
        while n < expired.len()
            invariant
                n <= expired@.len(),
                self.wf(),
                all_registered(expired@, ps0),
                none_registered(expired@.take(n as int), self.participants@),
                kept_or_listed(ps0, self.participants@, expired@),
                expired@ == listed,
                listed == lease_expired(ps0, readings, lease_duration),
                readings.len() == ps0.len(),
            decreases expired@.len() - n,
        {
            let gp = expired[n];
            let ghost before = self.participants@;
            let ghost k = first_index(before, has_prefix(gp));
            proof {
                lemma_first_index(before, has_prefix(gp));
            }
            self.remove_participant(&gp);
            proof {
                let et = expired@.take(n + 1);
                assert forall|x: int, j: int| 0 <= x < et.len() && 0 <= j < self.participants@.len()
                    implies (#[trigger] self.participants@[j]).guid_prefix@ != (#[trigger] et[x])@ by {
                    if x < n {
                        assert(et[x] == expired@.take(n as int)[x]);
                        if k >= 0 {
                            let a = if j < k { j } else { j + 1 };
                            assert(self.participants@[j] == before[a]);
                        } else {
                            assert(self.participants@[j] == before[j]);
                        }
                    } else {
                        assert(et[x] == gp);
                    }
                }
                assert forall|j: int| 0 <= j < ps0.len() implies (exists|y: int| 0 <= y < self.participants@.len()
                    && #[trigger] self.participants@[y] == ps0[j])
                    || listed_prefix(expired@, ps0[j].guid_prefix) by {
                    if !listed_prefix(expired@, ps0[j].guid_prefix) {
                        let y = choose|y: int| 0 <= y < before.len() && #[trigger] before[y] == ps0[j];
                        assert(before[y].guid_prefix@ != gp@) by {
                            if before[y].guid_prefix@ == gp@ {
                                assert(expired@[n as int] == gp);
                                assert(listed_prefix(expired@, ps0[j].guid_prefix));
                            }
                        }
                        if k >= 0 {
                            assert(y != k);
                            let y2 = if y < k { y } else { y - 1 };
                            assert(self.participants@[y2] == before[y]);
                        } else {
                            assert(self.participants@[y] == before[y]);
                        }
                    }
                }
            }
            n = n + 1;
        }
        assert(expired@.take(n as int) =~= expired@);
        expired
    }

    /// Adds an endpoint, or replaces the one with the same GUID, when
    /// `participant_guid_prefix` names a registered participant; its GUID
    /// leaves the earlier record's topic list and is listed last under its
    /// topic. Else nothing changes.
    pub fn add_endpoint(&mut self, participant_guid_prefix: [u8; 12], info: EndpointInfo)
        requires
            old(self).wf(),
        ensures
            final(self).wf(),
            final(self).participants_seq() == old(self).participants_seq(),
            final(self).domain_index() == old(self).domain_index(),
            first_index(old(self).participants_seq(), has_prefix(participant_guid_prefix)) == -1 ==> {
                &&& final(self).endpoints_seq() == old(self).endpoints_seq()
                &&& final(self).topic_index() == old(self).topic_index()
            },
            first_index(old(self).participants_seq(), has_prefix(participant_guid_prefix)) >= 0 ==> {
                &&& final(self).endpoints_seq() == endpoints_put(old(self).endpoints_seq(), info)
                &&& final(self).topic_index() == topic_reput(old(self).topic_index(), old(self).endpoints_seq(), info)
            },
    {
        if self.find_participant(&participant_guid_prefix).is_none() {
            return;
        }
        let g = info.guid;
        let ghost es0 = self.endpoints@;
        let ghost ti0 = self.topic_index();
        match self.find_endpoint(&g) {
            Some(k) => {
                let t0 = self.endpoints[k].topic_name.clone();
                self.drop_from_topic(t0.as_str(), &g);
            },
            None => {},
        }
        let ghost ti = self.topic_index();
        match self.find_topic(info.topic_name.as_str()) {
            Some(t) => {
                let mut list = guids_without(&self.topic_index[t].1, &g);
                list.push(g);
                let ghost l = list@;
                let name = info.topic_name.clone();
                self.topic_index.set(t, (name, list));
                assert(self.topic_index() =~= ti.update(t as int, (info.topic_name@, l)));
            },
            None => {
                let mut list: Vec<Guid> = Vec::new();
                list.push(g);
                let ghost l = list@;
                let name = info.topic_name.clone();
                self.topic_index.push((name, list));
                assert(l =~= seq![g]);
                assert(self.topic_index() =~= ti.push((info.topic_name@, seq![g])));
            },
        }
        proof {
            lemma_put_endpoint_unique(self.endpoints@, info);
            lemma_tmatches_add(es0, ti0, info);
        }
        match self.find_endpoint(&g) {
            Some(k) => {
                self.endpoints.set(k, info);
            },
            None => {
                self.endpoints.push(info);
            },
        }
    }

    /// The endpoint with this GUID.
    pub fn get_endpoint(&self, guid: &Guid) -> (r: Option<&EndpointInfo>)
        ensures
            ({
                let k = first_index(self.endpoints_seq(), has_guid(*guid));
                match r {
                    Some(e) => k >= 0 && *e == self.endpoints_seq()[k],
                    None => k == -1,
                }
            }),
    {
        match self.find_endpoint(guid) {
            Some(k) => Some(&self.endpoints[k]),
            None => None,
        }
    }

    /// All endpoints.
    pub fn endpoints(&self) -> (r: &[EndpointInfo])
        ensures
            r@ == self.endpoints_seq(),
    {
        self.endpoints.as_slice()
    }

    /// The number of endpoints.
    pub fn endpoint_count(&self) -> (n: usize)
        ensures
            n == self.endpoints_seq().len(),
    {
        self.endpoints.len()
    }

    /// The registered endpoints listed under a topic, in list order.
    pub fn endpoints_for_topic(&self, topic_name: &str) -> (r: Vec<&EndpointInfo>)
        ensures
            deref_endpoints(r@) == topic_endpoints(self.endpoints_seq(), self.topic_index(), topic_name@),
    {
        let mut r: Vec<&EndpointInfo> = Vec::new();
        match self.find_topic(topic_name) {
            Some(t) => {
                let list = &self.topic_index[t].1;
                let ghost lv = list@;
                assert(lv == self.topic_index()[t as int].1);
                let mut i: usize = 0;
                while i < list.len()
                    invariant
                        i <= lv.len(),
                        lv == list@,
                        deref_endpoints(r@) == endpoints_listed(self.endpoints@, lv.take(i as int)),
                    decreases lv.len() - i,
                {
                    let ghost before = r@;
                    let g = list[i];
                    proof {
                        let t2 = lv.take(i + 1);
                        assert(t2.drop_last() =~= lv.take(i as int));
                        assert(t2.last() == g);
                        reveal_with_fuel(Seq::filter_map, 1);
                    }
                    match self.find_endpoint(&g) {
                        Some(k) => {
                            r.push(&self.endpoints[k]);
                            assert(deref_endpoints(r@) =~= deref_endpoints(before) + seq![self.endpoints@[k as int]]);
                        },
                        None => {},
                    }
                    i = i + 1;
                }
                assert(lv.take(lv.len() as int) =~= lv);
            },
            None => {
                assert(deref_endpoints(r@) =~= Seq::<EndpointInfo>::empty());
            },
        }
        r
    }

    fn keep_kind<'a>(v: Vec<&'a EndpointInfo>, writers: bool) -> (r: Vec<&'a EndpointInfo>)
        ensures
            deref_endpoints(r@) == deref_endpoints(v@).filter(
                if writers {
                    is_writer_endpoint()
                } else {
                    is_reader_endpoint()
                },
            ),
    {
        let ghost p = if writers {
            is_writer_endpoint()
        } else {
            is_reader_endpoint()
        };
        let ghost dv = deref_endpoints(v@);
        let mut r: Vec<&'a EndpointInfo> = Vec::new();
        let mut i: usize = 0;
        assert(dv.take(0) =~= Seq::<EndpointInfo>::empty());
        while i < v.len()
            invariant
                i <= v@.len(),
                dv == deref_endpoints(v@),
                p == (if writers { is_writer_endpoint() } else { is_reader_endpoint() }),
                deref_endpoints(r@) == dv.take(i as int).filter(p),
            decreases v@.len() - i,
        {
            let e = v[i];
            let ghost before = r@;
            proof {
                let t = dv.take(i + 1);
                assert(t.drop_last() =~= dv.take(i as int));
                assert(t.last() == *e);
                reveal_with_fuel(Seq::filter, 1);
            }
            if e.is_writer == writers {
                r.push(e);
                assert(deref_endpoints(r@) =~= deref_endpoints(before).push(*e));
            }
            i = i + 1;
        }
        assert(dv.take(dv.len() as int) =~= dv);
        r
    }

    /// The writers listed under a topic.
    pub fn writers_for_topic(&self, topic_name: &str) -> (r: Vec<&EndpointInfo>)
        ensures
            deref_endpoints(r@) == topic_endpoints(self.endpoints_seq(), self.topic_index(), topic_name@).filter(is_writer_endpoint()),
    {
        Self::keep_kind(self.endpoints_for_topic(topic_name), true)
    }

    /// The readers listed under a topic.
    pub fn readers_for_topic(&self, topic_name: &str) -> (r: Vec<&EndpointInfo>)
        ensures
            deref_endpoints(r@) == topic_endpoints(self.endpoints_seq(), self.topic_index(), topic_name@).filter(is_reader_endpoint()),
    {
        Self::keep_kind(self.endpoints_for_topic(topic_name), false)
    }

    /// Every topic name ever indexed.
    pub fn topic_names(&self) -> (r: Vec<&String>)
        ensures
            r@.map_values(|s: &String| s@) == self.topic_index().map_values(|e: (Seq<char>, Seq<Guid>)| e.0),
    {
        let mut r: Vec<&String> = Vec::new();
        let mut i: usize = 0;
        let ghost ti = self.topic_index().map_values(|e: (Seq<char>, Seq<Guid>)| e.0);
        while i < self.topic_index.len()
            invariant
                i <= self.topic_index@.len(),
                ti == self.topic_index().map_values(|e: (Seq<char>, Seq<Guid>)| e.0),
                r@.map_values(|s: &String| s@) == ti.take(i as int),
            decreases self.topic_index@.len() - i,
        {
            let ghost before = r@;
            assert(ti[i as int] == self.topic_index@[i as int].0@);
            r.push(&self.topic_index[i].0);
            assert(r@.map_values(|s: &String| s@) =~= before.map_values(|s: &String| s@).push(ti[i as int]));
            assert(ti.take(i + 1) =~= ti.take(i as int).push(ti[i as int]));
            i = i + 1;
        }
        assert(ti.take(ti.len() as int) =~= ti);
        r
    }

    /// Forgets every participant, endpoint and index.
    pub fn clear(&mut self)
        ensures
            final(self).wf(),
            final(self).participants_seq().len() == 0,
            final(self).endpoints_seq().len() == 0,
            final(self).topic_index().len() == 0,
            final(self).domain_index().len() == 0,
    {
        self.participants = Vec::new();
        self.endpoints = Vec::new();
        self.topic_index = Vec::new();
        self.domain_index = Vec::new();
    }
}

impl Default for ParticipantRegistry {
    fn default() -> (r: Self)
        ensures
            r.wf(),
            r.participants_seq().len() == 0,
            r.endpoints_seq().len() == 0,
            r.topic_index().len() == 0,
            r.domain_index().len() == 0,
    {
        ParticipantRegistry::new()
    }
}

fn prefixes_without(list: &Vec<[u8; 12]>, gp: &[u8; 12]) -> (r: Vec<[u8; 12]>)
    ensures
        r@ == list@.filter(other_prefix(*gp)),
{
    let mut r: Vec<[u8; 12]> = Vec::new();
    let mut i: usize = 0;
    assert(list@.take(0) =~= Seq::<[u8; 12]>::empty());
    while i < list.len()
        invariant
            i <= list@.len(),
            r@ == list@.take(i as int).filter(other_prefix(*gp)),
        decreases list@.len() - i,
    {
        let x = list[i];
        assert(list@.take(i + 1).drop_last() =~= list@.take(i as int));
        proof {
            let t = list@.take(i + 1);
            assert(t.last() == x);
            reveal_with_fuel(Seq::filter, 1);
            assert(t.filter(other_prefix(*gp)) == (if other_prefix(*gp)(x) {
                t.drop_last().filter(other_prefix(*gp)).push(x)
            } else {
                t.drop_last().filter(other_prefix(*gp))
            }));
        }
        if !prefix_eq(&x, gp) {
            r.push(x);
        }
        i = i + 1;
    }
    assert(list@.take(list@.len() as int) =~= list@);
    r
}

fn guids_without(list: &Vec<Guid>, g: &Guid) -> (r: Vec<Guid>)
    ensures
        r@ == list@.filter(other_guid(*g)),
{
    let mut r: Vec<Guid> = Vec::new();
    let mut i: usize = 0;
    assert(list@.take(0) =~= Seq::<Guid>::empty());
    while i < list.len()
        invariant
            i <= list@.len(),
            r@ == list@.take(i as int).filter(other_guid(*g)),
        decreases list@.len() - i,
    {
        let x = list[i];
        assert(list@.take(i + 1).drop_last() =~= list@.take(i as int));
        proof {
            let t = list@.take(i + 1);
            assert(t.last() == x);
            reveal_with_fuel(Seq::filter, 1);
            assert(t.filter(other_guid(*g)) == (if other_guid(*g)(x) {
                t.drop_last().filter(other_guid(*g)).push(x)
            } else {
                t.drop_last().filter(other_guid(*g))
            }));
        }
        if !guid_eq(&x, g) {
            r.push(x);
        }
        i = i + 1;
    }
    assert(list@.take(list@.len() as int) =~= list@);
    r
}

} // verus!
