//! The discovery server's decisions: what a received message does to the
//! registry, the relay router and the connection, and what is to be sent in
//! answer. Sending, reading and the connection loop are the caller's.
use vstd::prelude::*;
use crate::discovery_config::{ServerConfig, ServerError};
use crate::discovery_protocol::{
    DiscoveryMessage, EndpointInfoWire, GuidPrefixWire, ParticipantInfoWire, ProtocolError,
    guid_prefix_from_wire, hex_decode, hex_encode, protocol_error_message,
};
use crate::discovery_registry::{
    EndpointInfo, ParticipantInfo, ParticipantRegistry, domain_reput, endpoints_put, first_index,
    has_prefix, not_of_prefix, opt_string_view, participant_wire_matches, participants_put,
    same_participant_data, topic_drop_prefix, topic_reput, domain_drop, lemma_first_index,
};
use crate::discovery_relay::{RelayRouter, conn_for};

verus! {

/// What the connection handler is to do after a message.
pub enum ServerAction {
    /// Send a message to this client; a failure to send ends the work on
    /// this message.
    Reply(DiscoveryMessage),
    /// Send a message to every connected client but `exclude`.
    Broadcast { message: DiscoveryMessage, exclude: [u8; 12] },
    /// Send a DATA message with `payload` to the connected `destination`,
    /// then record the outcome with `RelayRouter::record_relay`.
    Relay { destination: [u8; 12], payload: Vec<u8> },
}

/// The locators of a received announcement that parse as socket addresses,
/// in their canonical text (parsing them is the caller's).
pub struct ParsedLocators {
    pub unicast: Vec<String>,
    pub default_unicast: Vec<String>,
}

/// Whether the wire text names a GUID prefix.
pub open spec fn valid_prefix_text(t: Seq<char>) -> bool {
    hex_decode(t) matches Some(b) && b.len() == 12
}

pub open spec fn prefix_of_text(t: Seq<char>) -> Seq<u8> {
    hex_decode(t)->Some_0
}

pub open spec fn is_error_reply(a: ServerAction, code: u32, text: Seq<char>) -> bool {
    a matches ServerAction::Reply(DiscoveryMessage::Error { code: c, message: m }) && c == code && m@ == text
}

pub open spec fn is_ack(a: ServerAction, gp: [u8; 12]) -> bool {
    a matches ServerAction::Reply(DiscoveryMessage::ParticipantAck { guid_prefix: w }) && w.0@ == hex_encode(gp@)
}

pub open spec fn is_announce_reply(a: ServerAction, p: ParticipantInfo) -> bool {
    a matches ServerAction::Reply(DiscoveryMessage::ParticipantAnnounce(w)) && participant_wire_matches(w, p)
}

pub open spec fn is_announce_broadcast(a: ServerAction, p: ParticipantInfo) -> bool {
    a matches ServerAction::Broadcast { message: DiscoveryMessage::ParticipantAnnounce(w), exclude: e }
        && participant_wire_matches(w, p) && e@ == p.guid_prefix@
}

/// The participant an announcement registers.
pub open spec fn announced(p: ParticipantInfo, w: ParticipantInfoWire, locs: ParsedLocators) -> bool {
    &&& p.guid_prefix@ == prefix_of_text(w.guid_prefix.0@)
    &&& p.domain_id == w.domain_id
    &&& opt_string_view(p.name) == opt_string_view(w.name)
    &&& p.unicast_locators == locs.unicast
    &&& p.default_unicast_locators == locs.default_unicast
    &&& p.vendor_id == w.vendor_id
    &&& p.protocol_version == w.protocol_version
    &&& p.builtin_endpoints == w.builtin_endpoints
}

pub open spec fn other_participants(ps: Seq<ParticipantInfo>, gp: [u8; 12]) -> Seq<ParticipantInfo> {
    ps.filter(|p: ParticipantInfo| p.guid_prefix@ != gp@)
}

/// The effect of registering with the relay router.
pub open spec fn registered_conns<H>(cs: Seq<([u8; 12], H)>, gp: [u8; 12], h: H) -> Seq<([u8; 12], H)> {
    let k = first_index(cs, conn_for::<H>(gp));
    if k >= 0 {
        cs.update(k, (gp, h))
    } else {
        cs.push((gp, h))
    }
}

pub open spec fn unregistered_conns<H>(cs: Seq<([u8; 12], H)>, gp: [u8; 12]) -> Seq<([u8; 12], H)> {
    let k = first_index(cs, conn_for::<H>(gp));
    if k >= 0 {
        cs.remove(k)
    } else {
        cs
    }
}

/// The registry after `remove_participant(gp)`.
pub open spec fn registry_after_removal(
    old_reg: ParticipantRegistry,
    new_reg: ParticipantRegistry,
    gp: [u8; 12],
) -> bool {
    let k = first_index(old_reg.participants_seq(), has_prefix(gp));
    if k >= 0 {
        &&& new_reg.participants_seq() == old_reg.participants_seq().remove(k)
        &&& new_reg.domain_index() == domain_drop(old_reg.domain_index(), old_reg.participants_seq()[k].domain_id, gp)
        &&& new_reg.endpoints_seq() == old_reg.endpoints_seq().filter(not_of_prefix(gp))
        &&& new_reg.topic_index() == topic_drop_prefix(old_reg.topic_index(), old_reg.endpoints_seq(), gp)
    } else {
        &&& new_reg.participants_seq() == old_reg.participants_seq()
        &&& new_reg.domain_index() == old_reg.domain_index()
        &&& new_reg.endpoints_seq() == old_reg.endpoints_seq()
        &&& new_reg.topic_index() == old_reg.topic_index()
    }
}

pub open spec fn same_registry(a: ParticipantRegistry, b: ParticipantRegistry) -> bool {
    &&& a.participants_seq() == b.participants_seq()
    &&& a.domain_index() == b.domain_index()
    &&& a.endpoints_seq() == b.endpoints_seq()
    &&& a.topic_index() == b.topic_index()
}

pub open spec fn is_protocol_error(r: Result<Vec<ServerAction>, ServerError>, text: Seq<char>) -> bool {
    r matches Err(ServerError::Protocol(m)) && m@ == text
}

fn protocol_error(e: &ProtocolError) -> (r: ServerError)
    ensures
        r matches ServerError::Protocol(m) && m@ == protocol_error_message(*e),
{
    ServerError::Protocol(e.message())
}

/// Handles a message received on a connection. `conn_prefix` is the prefix
/// the connection registered (none yet), `outbound` the handle by which the
/// relay router reaches this connection, `locators` the parsed locators of
/// an announcement. The registry, router and connection are updated, and
/// the messages to send are returned in order; an error ends the
/// connection's work on the message.
pub fn process_message<H>(
    registry: &mut ParticipantRegistry,
    router: &mut RelayRouter<H>,
    conn_prefix: &mut Option<[u8; 12]>,
    config: &ServerConfig,
    msg: DiscoveryMessage,
    locators: ParsedLocators,
    outbound: H,
) -> (r: Result<Vec<ServerAction>, ServerError>)
    requires
        old(registry).wf(),
        old(router).wf(),
        old(router).stats_spec().relay_errors < u64::MAX,
    ensures
        final(registry).wf(),
        final(router).wf(),
        match msg {
            DiscoveryMessage::ParticipantAnnounce(w) => {
                if !valid_prefix_text(w.guid_prefix.0@) {
                    &&& is_protocol_error(r, "Invalid GUID prefix"@)
                    &&& same_registry(*final(registry), *old(registry))
                    &&& *final(router) == *old(router)
                    &&& *final(conn_prefix) == *old(conn_prefix)
                } else if old(registry).participants_seq().len() >= config.max_participants {
                    &&& r matches Ok(acts) && acts@.len() == 1 && is_error_reply(acts@[0], 1, "Max participants reached"@)
                    &&& same_registry(*final(registry), *old(registry))
                    &&& *final(router) == *old(router)
                    &&& *final(conn_prefix) == *old(conn_prefix)
                } else {
                    exists|p: ParticipantInfo| {
                        &&& #[trigger] announced(p, w, locators)
                        &&& final(registry).participants_seq() == participants_put(old(registry).participants_seq(), p)
                        &&& final(registry).domain_index() == domain_reput(old(registry).domain_index(), old(registry).participants_seq(), p)
                        &&& final(registry).endpoints_seq() == old(registry).endpoints_seq()
                        &&& final(registry).topic_index() == old(registry).topic_index()
                        &&& *final(conn_prefix) == Some(p.guid_prefix)
                        &&& final(router).connections() == registered_conns(old(router).connections(), p.guid_prefix, outbound)
                        &&& final(router).stats_spec() == old(router).stats_spec()
                        &&& r matches Ok(acts) && {
                            let others = other_participants(final(registry).participants_seq(), p.guid_prefix);
                            &&& acts@.len() == 1 + others.len() + (if config.relay_enabled { 1int } else { 0int })
                            &&& is_ack(acts@[0], p.guid_prefix)
                            &&& forall|i: int| 0 <= i < others.len() ==> is_announce_reply(#[trigger] acts@[i + 1], others[i])
                            &&& config.relay_enabled ==> is_announce_broadcast(acts@[acts@.len() - 1], p)
                        }
                    }
                }
            },
            DiscoveryMessage::EndpointAnnounce(w) => match *old(conn_prefix) {
                None => {
                    &&& r matches Ok(acts) && acts@.len() == 1 && is_error_reply(acts@[0], 2, "Register participant first"@)
                    &&& same_registry(*final(registry), *old(registry))
                    &&& *final(router) == *old(router)
                    &&& *final(conn_prefix) == *old(conn_prefix)
                },
                Some(gp) => {
                    &&& *final(router) == *old(router)
                    &&& *final(conn_prefix) == *old(conn_prefix)
                    &&& if !valid_prefix_text(w.guid_prefix.0@) {
                        &&& is_protocol_error(r, "Invalid GUID prefix"@)
                        &&& same_registry(*final(registry), *old(registry))
                    } else if !(hex_decode(w.entity_id.0@) matches Some(b) && b.len() == 4) {
                        &&& is_protocol_error(r, "Invalid entity ID"@)
                        &&& same_registry(*final(registry), *old(registry))
                    } else {
                        &&& final(registry).participants_seq() == old(registry).participants_seq()
                        &&& final(registry).domain_index() == old(registry).domain_index()
                        &&& exists|e: EndpointInfo| {
                            &&& #[trigger] e.topic_name@ == w.topic_name@
                            &&& e.guid.prefix@ == prefix_of_text(w.guid_prefix.0@)
                            &&& e.data_type@ == w.data_type@
                            &&& e.is_writer == w.is_writer
                            &&& e.reliable == w.reliable
                            &&& e.durability == w.durability
                            &&& e.unicast_locators == locators.unicast
                            &&& if first_index(old(registry).participants_seq(), has_prefix(gp)) >= 0 {
                                &&& final(registry).endpoints_seq() == endpoints_put(old(registry).endpoints_seq(), e)
                                &&& final(registry).topic_index() == topic_reput(old(registry).topic_index(), old(registry).endpoints_seq(), e)
                            } else {
                                &&& final(registry).endpoints_seq() == old(registry).endpoints_seq()
                                &&& final(registry).topic_index() == old(registry).topic_index()
                            }
                        }
                        &&& r matches Ok(acts) && if config.relay_enabled {
                            acts@ == seq![ServerAction::Broadcast { message: DiscoveryMessage::EndpointAnnounce(w), exclude: gp }]
                        } else {
                            acts@.len() == 0
                        }
                    }
                },
            },
            DiscoveryMessage::Heartbeat { guid_prefix: w } => {
                &&& *final(router) == *old(router)
                &&& *final(conn_prefix) == *old(conn_prefix)
                &&& if !valid_prefix_text(w.0@) {
                    &&& is_protocol_error(r, "Invalid GUID prefix"@)
                    &&& same_registry(*final(registry), *old(registry))
                } else {
                    &&& r matches Ok(acts) && acts@.len() == 0
                    &&& final(registry).participants_seq().len() == old(registry).participants_seq().len()
                    &&& forall|i: int| 0 <= i < old(registry).participants_seq().len() ==> same_participant_data(
                        #[trigger] final(registry).participants_seq()[i],
                        old(registry).participants_seq()[i],
                    )
                    &&& final(registry).endpoints_seq() == old(registry).endpoints_seq()
                    &&& final(registry).domain_index() == old(registry).domain_index()
                    &&& final(registry).topic_index() == old(registry).topic_index()
                }
            },
            DiscoveryMessage::ParticipantLeave { guid_prefix: w } => {
                &&& *final(conn_prefix) == *old(conn_prefix)
                &&& if !valid_prefix_text(w.0@) {
                    &&& is_protocol_error(r, "Invalid GUID prefix"@)
                    &&& same_registry(*final(registry), *old(registry))
                    &&& *final(router) == *old(router)
                } else {
                    exists|gp: [u8; 12]| {
                        &&& #[trigger] gp@ == prefix_of_text(w.0@)
                        &&& final(router).connections() == unregistered_conns(old(router).connections(), gp)
                        &&& final(router).stats_spec() == old(router).stats_spec()
                        &&& registry_after_removal(*old(registry), *final(registry), gp)
                        &&& r matches Ok(acts) && if config.relay_enabled {
                            acts@ == seq![ServerAction::Broadcast { message: DiscoveryMessage::ParticipantLeave { guid_prefix: w }, exclude: gp }]
                        } else {
                            acts@.len() == 0
                        }
                    }
                }
            },
            DiscoveryMessage::Data { destination, payload } => {
                &&& same_registry(*final(registry), *old(registry))
                &&& *final(conn_prefix) == *old(conn_prefix)
                &&& final(router).connections() == old(router).connections()
                &&& if !config.relay_enabled {
                    r matches Ok(acts) && acts@.len() == 0 && final(router).stats_spec() == old(router).stats_spec()
                } else if !valid_prefix_text(destination.0@) {
                    is_protocol_error(r, "Invalid destination: Invalid GUID prefix"@) && final(router).stats_spec() == old(router).stats_spec()
                } else if *old(conn_prefix) is None {
                    is_protocol_error(r, "Relay from unregistered participant"@) && final(router).stats_spec() == old(router).stats_spec()
                } else {
                    exists|dest: [u8; 12]| {
                        &&& #[trigger] dest@ == prefix_of_text(destination.0@)
                        &&& if first_index(old(router).connections(), conn_for::<H>(dest)) >= 0 {
                            &&& r matches Ok(acts) && acts@ == seq![ServerAction::Relay { destination: dest, payload }]
                            &&& final(router).stats_spec() == old(router).stats_spec()
                        } else {
                            &&& r matches Ok(acts) && acts@.len() == 0
                            &&& final(router).stats_spec().relay_errors == old(router).stats_spec().relay_errors + 1
                            &&& final(router).stats_spec().messages_relayed == old(router).stats_spec().messages_relayed
                            &&& final(router).stats_spec().bytes_relayed == old(router).stats_spec().bytes_relayed
                        }
                    }
                }
            },
            _ => {
                &&& r matches Ok(acts) && acts@.len() == 0
                &&& same_registry(*final(registry), *old(registry))
                &&& *final(router) == *old(router)
                &&& *final(conn_prefix) == *old(conn_prefix)
            },
        },
{
    match msg {
        DiscoveryMessage::ParticipantAnnounce(w) => {
            let info = match ParticipantInfo::from_wire(&w, locators.unicast, locators.default_unicast) {
                Ok(info) => info,
                Err(e) => {
                    return Err(protocol_error(&e));
                },
            };
            if registry.participant_count() >= config.max_participants {
                let mut acts: Vec<ServerAction> = Vec::new();
                acts.push(ServerAction::Reply(DiscoveryMessage::Error {
                    code: 1,
                    message: String::from_str("Max participants reached"),
                }));
                return Ok(acts);
            }
            let gp = info.guid_prefix;
            let announce = info.to_wire();
            let ghost p = info;
            registry.add_participant(info);
            *conn_prefix = Some(gp);
            router.register(gp, outbound);
            let mut acts: Vec<ServerAction> = Vec::new();
            acts.push(ServerAction::Reply(DiscoveryMessage::ParticipantAck { guid_prefix: GuidPrefixWire::from_prefix(gp) }));
            let ps = registry.participants();
            let ghost others = other_participants(ps@, gp);
            let mut i: usize = 0;
            assert(ps@.take(0) =~= Seq::<ParticipantInfo>::empty());
            while i < ps.len()
                invariant
                    i <= ps@.len(),
                    acts@.len() == 1 + other_participants(ps@.take(i as int), gp).len(),
                    is_ack(acts@[0], gp),
                    forall|j: int| 0 <= j < other_participants(ps@.take(i as int), gp).len() ==> is_announce_reply(
                        #[trigger] acts@[j + 1],
                        other_participants(ps@.take(i as int), gp)[j],
                    ),
                decreases ps@.len() - i,
            {
                let ghost before = acts@;
                let ghost ot = other_participants(ps@.take(i as int), gp);
                proof {
                    let t = ps@.take(i + 1);
                    assert(t.drop_last() =~= ps@.take(i as int));
                    assert(t.last() == ps@[i as int]);
                    reveal_with_fuel(Seq::filter, 1);
                }
                if !crate::discovery_registry::prefix_eq(&ps[i].guid_prefix, &gp) {
                    acts.push(ServerAction::Reply(DiscoveryMessage::ParticipantAnnounce(ps[i].to_wire())));
                    proof {
                        let on = other_participants(ps@.take(i + 1), gp);
                        assert(on =~= ot.push(ps@[i as int]));
                        assert forall|j: int| 0 <= j < on.len() implies is_announce_reply(#[trigger] acts@[j + 1], on[j]) by {
                            if j < ot.len() {
                                assert(acts@[j + 1] == before[j + 1]);
                            }
                        }
                    }
                } else {
                    assert(other_participants(ps@.take(i + 1), gp) =~= ot);
                }
                i = i + 1;
            }
            assert(ps@.take(ps@.len() as int) =~= ps@);
            if config.relay_enabled {
                acts.push(ServerAction::Broadcast { message: DiscoveryMessage::ParticipantAnnounce(announce), exclude: gp });
            }
            proof {
                assert(announced(p, w, locators));
            }
            Ok(acts)
        },
        DiscoveryMessage::EndpointAnnounce(w) => {
            let gp = match *conn_prefix {
                Some(gp) => gp,
                None => {
                    let mut acts: Vec<ServerAction> = Vec::new();
                    acts.push(ServerAction::Reply(DiscoveryMessage::Error {
                        code: 2,
                        message: String::from_str("Register participant first"),
                    }));
                    return Ok(acts);
                },
            };
            let endpoint = match EndpointInfo::from_wire(&w, locators.unicast) {
                Ok(e) => e,
                Err(e) => {
                    return Err(protocol_error(&e));
                },
            };
            let ghost e = endpoint;
            registry.add_endpoint(gp, endpoint);
            let mut acts: Vec<ServerAction> = Vec::new();
            if config.relay_enabled {
                acts.push(ServerAction::Broadcast { message: DiscoveryMessage::EndpointAnnounce(w), exclude: gp });
            }
            proof {
                assert(e.topic_name@ == w.topic_name@);
            }
            Ok(acts)
        },
        DiscoveryMessage::Heartbeat { guid_prefix: w } => {
            let gp = match guid_prefix_from_wire(&w) {
                Ok(gp) => gp,
                Err(e) => {
                    return Err(protocol_error(&e));
                },
            };
            registry.touch_participant(&gp);
            Ok(Vec::new())
        },
        DiscoveryMessage::ParticipantLeave { guid_prefix: w } => {
            let gp = match guid_prefix_from_wire(&w) {
                Ok(gp) => gp,
                Err(e) => {
                    return Err(protocol_error(&e));
                },
            };
            router.unregister(&gp);
            registry.remove_participant(&gp);
            let mut acts: Vec<ServerAction> = Vec::new();
            if config.relay_enabled {
                acts.push(ServerAction::Broadcast { message: DiscoveryMessage::ParticipantLeave { guid_prefix: w }, exclude: gp });
            }
            proof {
                assert(gp@ == prefix_of_text(w.0@));
            }
            Ok(acts)
        },
        DiscoveryMessage::Data { destination, payload } => {
            if !config.relay_enabled {
                return Ok(Vec::new());
            }
            let dest = match guid_prefix_from_wire(&destination) {
                Ok(gp) => gp,
                Err(e) => {
                    let mut m = String::from_str("Invalid destination: ");
                    m.append(e.message().as_str());
                    proof {
                        reveal_strlit("Invalid destination: ");
                        reveal_strlit("Invalid GUID prefix");
                        reveal_strlit("Invalid destination: Invalid GUID prefix");
                        assert(m@ =~= "Invalid destination: Invalid GUID prefix"@);
                    }
                    return Err(ServerError::Protocol(m));
                },
            };
            if conn_prefix.is_none() {
                return Err(ServerError::Protocol(String::from_str("Relay from unregistered participant")));
            }
            let mut acts: Vec<ServerAction> = Vec::new();
            if router.is_connected(&dest) {
                acts.push(ServerAction::Relay { destination: dest, payload });
            } else {
                let _ = router.record_relay(None, 0);
            }
            proof {
                assert(dest@ == prefix_of_text(destination.0@));
            }
            Ok(acts)
        },
        _ => Ok(Vec::new()),
    }
}

} // verus!
