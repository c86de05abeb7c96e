use hdds_tools::discovery_config::{
    check_frame_length, frame_header, frame_length, outgoing_header, ConfigError, ConnectionError,
    ServerConfig, ServerError,
};
use hdds_tools::discovery_protocol::{
    decode, encode, entity_id_from_wire, guid_prefix_from_wire, DiscoveryMessage, EntityIdWire,
    GuidPrefixWire, ParticipantInfoWire, ProtocolError,
};
use hdds_tools::discovery_registry::{EndpointInfo, Guid, ParticipantInfo, ParticipantRegistry};
use hdds_tools::discovery_relay::{RelayError, RelayRouter};
use hdds_tools::discovery_server::{process_message, ParsedLocators, ServerAction};
use std::time::{Duration, Instant};

fn make_guid_prefix(id: u8) -> [u8; 12] {
    let mut gp = [0u8; 12];
    gp[0] = id;
    gp
}

fn make_entity_id(id: u8) -> [u8; 4] {
    [0, 0, id, 0]
}

fn endpoint(gp: [u8; 12], id: u8, topic: &str, is_writer: bool) -> EndpointInfo {
    EndpointInfo {
        guid: Guid { prefix: gp, entity_id: make_entity_id(id) },
        topic_name: topic.into(),
        data_type: "T".into(),
        is_writer,
        reliable: true,
        durability: 0,
        unicast_locators: vec![],
    }
}

// ---- protocol ----

#[test]
fn test_guid_prefix_wire_roundtrip() {
    let gp: [u8; 12] = [1, 2, 3, 4, 5, 6, 7, 8, 9, 10, 11, 12];
    let wire = GuidPrefixWire::from_prefix(gp);
    let back = guid_prefix_from_wire(&wire).unwrap();
    assert_eq!(gp, back);
}

#[test]
fn test_entity_id_wire_roundtrip() {
    let eid: [u8; 4] = [0x00, 0x00, 0x01, 0xc2];
    let wire = EntityIdWire::from_entity_id(eid);
    let back = entity_id_from_wire(&wire).unwrap();
    assert_eq!(eid, back);
}

#[test]
fn test_hex_encode_decode() {
    let data = [0xde, 0xad, 0xbe, 0xef];
    let encoded = encode(&data);
    assert_eq!(encoded, "deadbeef");
    let decoded = decode(&encoded).unwrap();
    assert_eq!(decoded, data);
}

#[test]
fn test_hex_decode_invalid() {
    assert!(decode("xyz").is_err());
    assert!(decode("abc").is_err());
}

#[test]
fn hex_decode_accepts_upper_case_and_plus() {
    assert_eq!(decode("DEADbeef").unwrap(), vec![0xde, 0xad, 0xbe, 0xef]);
    assert_eq!(decode("+f").unwrap(), vec![0x0f]);
    assert!(decode("-f").is_err());
    assert!(decode("é0").is_err());
    assert_eq!(decode("").unwrap(), Vec::<u8>::new());
}

#[test]
fn wrong_length_prefix_is_refused() {
    let wire = GuidPrefixWire("0102".to_string());
    assert!(matches!(guid_prefix_from_wire(&wire), Err(ProtocolError::InvalidGuidPrefix)));
    let wire = EntityIdWire("zz".to_string());
    assert!(matches!(entity_id_from_wire(&wire), Err(ProtocolError::InvalidEntityId)));
    assert_eq!(ProtocolError::InvalidGuidPrefix.message(), "Invalid GUID prefix");
}

// ---- connection ----

#[test]
fn test_connection_error_display() {
    let err = ConnectionError::Io("test".into());
    assert!(err.message().contains("I/O"));
    let err = ConnectionError::Protocol("invalid".into());
    assert!(err.message().contains("Protocol"));
}

#[test]
fn frame_lengths() {
    assert_eq!(frame_length([0, 0, 1, 2]), 258);
    assert_eq!(frame_header(258), [0, 0, 1, 2]);
    assert_eq!(frame_length(frame_header(0xdeadbeef)), 0xdeadbeef);
    match check_frame_length(0, 10) {
        Err(ConnectionError::Protocol(m)) => assert_eq!(m, "Empty message"),
        _ => panic!("expected an error"),
    }
    match check_frame_length(11, 10) {
        Err(ConnectionError::Protocol(m)) => assert_eq!(m, "Message too large: 11 > 10"),
        _ => panic!("expected an error"),
    }
    assert_eq!(check_frame_length(10, 10).unwrap(), 10);
    match outgoing_header(20, 10) {
        Err(ConnectionError::Protocol(m)) => assert_eq!(m, "Response too large: 20 > 10"),
        _ => panic!("expected an error"),
    }
    assert_eq!(outgoing_header(5, 10).unwrap(), [0, 0, 0, 5]);
    let e = ServerError::from_connection(&ConnectionError::Io("x".into()));
    assert_eq!(e.message(), "I/O error: I/O error: x");
}

// ---- configuration ----

#[test]
fn test_default_config() {
    let config = ServerConfig::default();
    assert_eq!(config.port, 7400);
    assert_eq!(config.domain_id, 0);
    assert!(!config.relay_enabled);
    assert!(config.validate().is_ok());
}

#[test]
fn test_validation_port_zero() {
    let config = ServerConfig { port: 0, ..Default::default() };
    assert!(config.validate().is_err());
}

#[test]
fn test_validation_tls_without_cert() {
    let config = ServerConfig { tls_enabled: true, tls_cert_path: None, ..Default::default() };
    assert!(config.validate().is_err());
}

#[test]
fn test_lease_duration() {
    let config = ServerConfig { lease_duration_secs: 60, ..Default::default() };
    assert_eq!(config.lease_duration(), Duration::from_secs(60));
}

#[test]
fn validation_reasons() {
    let c = ServerConfig { max_participants: 0, ..Default::default() };
    match c.validate() {
        Err(ConfigError::InvalidValue(m)) => assert_eq!(m, "max_participants cannot be 0"),
        _ => panic!("expected an error"),
    }
    let c = ServerConfig { tls_enabled: true, tls_cert_path: Some("c".into()), ..Default::default() };
    match c.validate() {
        Err(e) => assert_eq!(e.message(), "Invalid value: tls_key_path required when TLS enabled"),
        _ => panic!("expected an error"),
    }
}

// ---- registry ----

#[test]
fn test_registry_new() {
    let reg = ParticipantRegistry::new();
    assert_eq!(reg.participant_count(), 0);
    assert_eq!(reg.endpoint_count(), 0);
}

#[test]
fn test_add_participant() {
    let mut reg = ParticipantRegistry::new();
    reg.add_participant(ParticipantInfo::new(make_guid_prefix(1), 0));
    assert_eq!(reg.participant_count(), 1);
    assert!(reg.get_participant(&make_guid_prefix(1)).is_some());
}

#[test]
fn test_remove_participant() {
    let mut reg = ParticipantRegistry::new();
    reg.add_participant(ParticipantInfo::new(make_guid_prefix(1), 0));
    let removed = reg.remove_participant(&make_guid_prefix(1));
    assert!(removed.is_some());
    assert_eq!(reg.participant_count(), 0);
}

#[test]
fn test_remove_participant_removes_endpoints() {
    let mut reg = ParticipantRegistry::new();
    let gp = make_guid_prefix(1);
    reg.add_participant(ParticipantInfo::new(gp, 0));
    let mut e = endpoint(gp, 1, "test", true);
    e.data_type = "TestType".into();
    reg.add_endpoint(gp, e);
    assert_eq!(reg.endpoint_count(), 1);
    reg.remove_participant(&gp);
    assert_eq!(reg.endpoint_count(), 0);
}

#[test]
fn test_participants_in_domain() {
    let mut reg = ParticipantRegistry::new();
    let mut info1 = ParticipantInfo::new(make_guid_prefix(1), 0);
    info1.domain_id = 0;
    reg.add_participant(info1);
    let mut info2 = ParticipantInfo::new(make_guid_prefix(2), 1);
    info2.domain_id = 1;
    reg.add_participant(info2);
    let mut info3 = ParticipantInfo::new(make_guid_prefix(3), 0);
    info3.domain_id = 0;
    reg.add_participant(info3);
    assert_eq!(reg.participants_in_domain(0).len(), 2);
    assert_eq!(reg.participants_in_domain(1).len(), 1);
}

#[test]
fn test_touch_participant() {
    let mut reg = ParticipantRegistry::new();
    let info = ParticipantInfo::new(make_guid_prefix(1), 0);
    let initial_time = info.last_seen;
    reg.add_participant(info);
    while Instant::now() <= initial_time {}
    reg.touch_participant(&make_guid_prefix(1));
    let updated = reg.get_participant(&make_guid_prefix(1)).unwrap();
    assert!(updated.last_seen > initial_time);
}

#[test]
fn test_remove_expired() {
    let mut reg = ParticipantRegistry::new();
    let mut info = ParticipantInfo::new(make_guid_prefix(1), 0);
    info.last_seen = Instant::now() - Duration::from_secs(100);
    reg.add_participant(info);
    reg.add_participant(ParticipantInfo::new(make_guid_prefix(2), 0));
    let expired = reg.remove_expired(Duration::from_secs(30));
    assert_eq!(expired.len(), 1);
    assert_eq!(expired[0], make_guid_prefix(1));
    assert_eq!(reg.participant_count(), 1);
}

#[test]
fn test_add_endpoint() {
    let mut reg = ParticipantRegistry::new();
    let gp = make_guid_prefix(1);
    reg.add_participant(ParticipantInfo::new(gp, 0));
    let mut e = endpoint(gp, 1, "sensor/temperature", true);
    e.data_type = "Temperature".into();
    reg.add_endpoint(gp, e);
    assert_eq!(reg.endpoint_count(), 1);
}

#[test]
fn test_endpoints_for_topic() {
    let mut reg = ParticipantRegistry::new();
    let gp = make_guid_prefix(1);
    reg.add_participant(ParticipantInfo::new(gp, 0));
    reg.add_endpoint(gp, endpoint(gp, 1, "test", true));
    reg.add_endpoint(gp, endpoint(gp, 2, "test", false));
    assert_eq!(reg.endpoints_for_topic("test").len(), 2);
    assert_eq!(reg.writers_for_topic("test").len(), 1);
    assert_eq!(reg.readers_for_topic("test").len(), 1);
}

#[test]
fn test_topic_names() {
    let mut reg = ParticipantRegistry::new();
    let gp = make_guid_prefix(1);
    reg.add_participant(ParticipantInfo::new(gp, 0));
    reg.add_endpoint(gp, endpoint(gp, 1, "topic_a", true));
    reg.add_endpoint(gp, endpoint(gp, 2, "topic_b", true));
    assert_eq!(reg.topic_names().len(), 2);
}

#[test]
fn test_clear() {
    let mut reg = ParticipantRegistry::new();
    let gp = make_guid_prefix(1);
    reg.add_participant(ParticipantInfo::new(gp, 0));
    reg.add_endpoint(gp, endpoint(gp, 1, "test", true));
    reg.clear();
    assert_eq!(reg.participant_count(), 0);
    assert_eq!(reg.endpoint_count(), 0);
}

#[test]
fn test_participant_info_expired() {
    let mut info = ParticipantInfo::new(make_guid_prefix(1), 0);
    info.last_seen = Instant::now() - Duration::from_secs(100);
    assert!(info.is_expired(Duration::from_secs(30)));
    assert!(!info.is_expired(Duration::from_secs(200)));
}

#[test]
fn endpoint_of_unknown_participant_is_ignored() {
    let mut reg = ParticipantRegistry::new();
    reg.add_endpoint(make_guid_prefix(9), endpoint(make_guid_prefix(9), 1, "t", true));
    assert_eq!(reg.endpoint_count(), 0);
}

#[test]
fn re_adding_a_participant_replaces_it() {
    let mut reg = ParticipantRegistry::new();
    reg.add_participant(ParticipantInfo::new(make_guid_prefix(1), 0));
    let mut again = ParticipantInfo::new(make_guid_prefix(1), 0);
    again.name = Some("second".into());
    reg.add_participant(again);
    assert_eq!(reg.participant_count(), 1);
    assert_eq!(reg.participants_in_domain(0).len(), 1);
    assert_eq!(reg.get_participant(&make_guid_prefix(1)).unwrap().name, Some("second".into()));
}

#[test]
fn moving_a_participant_to_another_domain_unlists_it_from_the_old_one() {
    let mut reg = ParticipantRegistry::new();
    reg.add_participant(ParticipantInfo::new(make_guid_prefix(1), 0));
    reg.add_participant(ParticipantInfo::new(make_guid_prefix(2), 0));
    reg.add_participant(ParticipantInfo::new(make_guid_prefix(1), 5));
    assert_eq!(reg.participant_count(), 2);
    let in0 = reg.participants_in_domain(0);
    assert_eq!(in0.len(), 1);
    assert_eq!(in0[0].guid_prefix, make_guid_prefix(2));
    let in5 = reg.participants_in_domain(5);
    assert_eq!(in5.len(), 1);
    assert_eq!(in5[0].guid_prefix, make_guid_prefix(1));
}

#[test]
fn moving_an_endpoint_to_another_topic_unlists_it_from_the_old_one() {
    let mut reg = ParticipantRegistry::new();
    let gp = make_guid_prefix(1);
    reg.add_participant(ParticipantInfo::new(gp, 0));
    reg.add_endpoint(gp, endpoint(gp, 1, "rt/a", true));
    reg.add_endpoint(gp, endpoint(gp, 1, "rt/b", true));
    assert_eq!(reg.endpoint_count(), 1);
    assert_eq!(reg.endpoints_for_topic("rt/a").len(), 0);
    let on_b = reg.endpoints_for_topic("rt/b");
    assert_eq!(on_b.len(), 1);
    assert_eq!(on_b[0].topic_name, "rt/b");
}

// ---- relay ----

#[test]
fn relay_router_register_unregister() {
    let mut router: RelayRouter<u32> = RelayRouter::new();
    let guid = [1u8; 12];
    assert_eq!(router.connection_count(), 0);
    assert_eq!(router.stats().messages_relayed, 0);
    router.register(guid, 7);
    assert!(router.is_connected(&guid));
    assert_eq!(router.connection_count(), 1);
    router.unregister(&guid);
    assert!(!router.is_connected(&guid));
    assert_eq!(router.connection_count(), 0);
}

#[test]
fn relay_router_records_outcomes() {
    let mut router: RelayRouter<u32> = RelayRouter::new();
    assert_eq!(router.record_relay(None, 3).unwrap(), false);
    assert_eq!(router.stats().relay_errors, 1);
    router.register([1u8; 12], 1);
    assert_eq!(*router.route(&[1u8; 12]).unwrap(), 1);
    for _ in 0..5 {
        assert!(router.record_relay(Some(true), 100).unwrap());
    }
    assert_eq!(router.stats().messages_relayed, 5);
    assert_eq!(router.stats().bytes_relayed, 500);
    assert!(matches!(router.record_relay(Some(false), 1), Err(RelayError::SendFailed)));
    assert_eq!(router.stats().relay_errors, 2);
}

#[test]
fn relay_broadcast_skips_the_source() {
    let mut router: RelayRouter<u32> = RelayRouter::new();
    router.register([1u8; 12], 1);
    router.register([2u8; 12], 2);
    router.register([3u8; 12], 3);
    let targets: Vec<u32> = router.broadcast_targets(Some(&[1u8; 12])).into_iter().copied().collect();
    assert_eq!(targets, vec![2, 3]);
    assert_eq!(router.broadcast_targets(None).len(), 3);
}

// ---- message handling ----

fn announce(gp: [u8; 12]) -> DiscoveryMessage {
    DiscoveryMessage::ParticipantAnnounce(ParticipantInfoWire {
        guid_prefix: GuidPrefixWire::from_prefix(gp),
        domain_id: 0,
        name: Some("P".into()),
        unicast_locators: vec![],
        default_unicast_locators: vec![],
        vendor_id: [0x01, 0x10],
        protocol_version: (2, 4),
        builtin_endpoints: 0,
    })
}

fn no_locators() -> ParsedLocators {
    ParsedLocators { unicast: vec![], default_unicast: vec![] }
}

#[test]
fn announce_registers_and_acknowledges() {
    let mut reg = ParticipantRegistry::new();
    let mut router: RelayRouter<u32> = RelayRouter::new();
    let config = ServerConfig { relay_enabled: true, ..Default::default() };
    let mut conn_a = None;
    let acts = process_message(&mut reg, &mut router, &mut conn_a, &config, announce(make_guid_prefix(1)), no_locators(), 1).unwrap();
    assert_eq!(acts.len(), 2);
    assert!(matches!(&acts[0], ServerAction::Reply(DiscoveryMessage::ParticipantAck { guid_prefix }) if guid_prefix.0 == "010000000000000000000000"));
    assert!(matches!(&acts[1], ServerAction::Broadcast { .. }));
    assert_eq!(conn_a, Some(make_guid_prefix(1)));

    let mut conn_b = None;
    let acts = process_message(&mut reg, &mut router, &mut conn_b, &config, announce(make_guid_prefix(2)), no_locators(), 2).unwrap();
    // Ack, the other participant, and the broadcast.
    assert_eq!(acts.len(), 3);
    assert!(matches!(&acts[1], ServerAction::Reply(DiscoveryMessage::ParticipantAnnounce(w)) if w.guid_prefix.0 == "010000000000000000000000"));
    assert_eq!(reg.participant_count(), 2);
    assert_eq!(router.connection_count(), 2);
}

#[test]
fn announce_over_the_limit_is_refused() {
    let mut reg = ParticipantRegistry::new();
    let mut router: RelayRouter<u32> = RelayRouter::new();
    let config = ServerConfig { max_participants: 1, ..Default::default() };
    let mut conn = None;
    process_message(&mut reg, &mut router, &mut conn, &config, announce(make_guid_prefix(1)), no_locators(), 1).unwrap();
    let mut conn2 = None;
    let acts = process_message(&mut reg, &mut router, &mut conn2, &config, announce(make_guid_prefix(2)), no_locators(), 2).unwrap();
    assert!(matches!(&acts[0], ServerAction::Reply(DiscoveryMessage::Error { code: 1, message }) if message == "Max participants reached"));
    assert_eq!(reg.participant_count(), 1);
    assert_eq!(conn2, None);
}

#[test]
fn endpoint_before_registration_is_an_error_reply() {
    let mut reg = ParticipantRegistry::new();
    let mut router: RelayRouter<u32> = RelayRouter::new();
    let config = ServerConfig::default();
    let mut conn = None;
    let msg = DiscoveryMessage::EndpointAnnounce(hdds_tools::discovery_protocol::EndpointInfoWire {
        guid_prefix: GuidPrefixWire("010203040506070809101112".into()),
        entity_id: EntityIdWire("000001c2".into()),
        topic_name: "sensor/temperature".into(),
        data_type: "Temperature".into(),
        is_writer: true,
        reliable: true,
        durability: 0,
        unicast_locators: vec![],
    });
    let acts = process_message(&mut reg, &mut router, &mut conn, &config, msg, no_locators(), 1).unwrap();
    assert!(matches!(&acts[0], ServerAction::Reply(DiscoveryMessage::Error { code: 2, .. })));
}

#[test]
fn leave_and_bad_heartbeat() {
    let mut reg = ParticipantRegistry::new();
    let mut router: RelayRouter<u32> = RelayRouter::new();
    let config = ServerConfig::default();
    let mut conn = None;
    process_message(&mut reg, &mut router, &mut conn, &config, announce(make_guid_prefix(1)), no_locators(), 1).unwrap();
    let bad = DiscoveryMessage::Heartbeat { guid_prefix: GuidPrefixWire("nothex".into()) };
    match process_message(&mut reg, &mut router, &mut conn, &config, bad, no_locators(), 1) {
        Err(ServerError::Protocol(m)) => assert_eq!(m, "Invalid GUID prefix"),
        _ => panic!("expected a protocol error"),
    }
    let leave = DiscoveryMessage::ParticipantLeave { guid_prefix: GuidPrefixWire::from_prefix(make_guid_prefix(1)) };
    let acts = process_message(&mut reg, &mut router, &mut conn, &config, leave, no_locators(), 1).unwrap();
    assert!(acts.is_empty());
    assert_eq!(reg.participant_count(), 0);
    assert_eq!(router.connection_count(), 0);
}

#[test]
fn data_is_relayed_only_to_connected_destinations() {
    let mut reg = ParticipantRegistry::new();
    let mut router: RelayRouter<u32> = RelayRouter::new();
    let config = ServerConfig { relay_enabled: true, ..Default::default() };
    let mut conn = None;
    process_message(&mut reg, &mut router, &mut conn, &config, announce(make_guid_prefix(1)), no_locators(), 1).unwrap();
    let data = DiscoveryMessage::Data { destination: GuidPrefixWire::from_prefix(make_guid_prefix(1)), payload: vec![1, 2, 3] };
    let acts = process_message(&mut reg, &mut router, &mut conn, &config, data, no_locators(), 1).unwrap();
    assert!(matches!(&acts[0], ServerAction::Relay { payload, .. } if payload == &vec![1, 2, 3]));
    let data = DiscoveryMessage::Data { destination: GuidPrefixWire::from_prefix(make_guid_prefix(9)), payload: vec![] };
    let acts = process_message(&mut reg, &mut router, &mut conn, &config, data, no_locators(), 1).unwrap();
    assert!(acts.is_empty());
    assert_eq!(router.stats().relay_errors, 1);
}
