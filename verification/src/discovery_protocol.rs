//! The discovery server's wire protocol: length-prefixed JSON messages whose
//! GUID parts travel as lowercase hex strings.
use vstd::prelude::*;
use crate::text::{chars_of, push_char};

verus! {

// ---------------------------------------------------------------------------
// Hex

/// The lowercase hex digits.
pub open spec fn hex_digits() -> Seq<char> {
    seq!['0', '1', '2', '3', '4', '5', '6', '7', '8', '9', 'a', 'b', 'c', 'd', 'e', 'f']
}

/// Two lowercase hex digits for each byte (`{:02x}`).
pub open spec fn hex_encode(b: Seq<u8>) -> Seq<char>
    decreases b.len(),
{
    if b.len() == 0 {
        Seq::empty()
    } else {
        hex_encode(b.drop_last()) + seq![
            hex_digits()[b.last() as int / 16],
            hex_digits()[b.last() as int % 16],
        ]
    }
}

/// The value of a hex digit of either case.
pub open spec fn hex_value(c: char) -> Option<int> {
    if '0' <= c <= '9' {
        Some(c as int - '0' as int)
    } else if 'a' <= c <= 'f' {
        Some(c as int - 'a' as int + 10)
    } else if 'A' <= c <= 'F' {
        Some(c as int - 'A' as int + 10)
    } else {
        None
    }
}

/// The byte that `u8::from_str_radix` reads in base 16 from a two-character
/// string: two hex digits, or `+` and one digit.
pub open spec fn hex_pair(a: char, b: char) -> Option<u8> {
    if a == '+' {
        match hex_value(b) {
            Some(y) => Some(y as u8),
            None => None,
        }
    } else {
        match (hex_value(a), hex_value(b)) {
            (Some(x), Some(y)) => Some((16 * x + y) as u8),
            _ => None,
        }
    }
}

/// The bytes read pair by pair from a text of even length.
pub open spec fn hex_pairs(s: Seq<char>) -> Option<Seq<u8>>
    decreases s.len(),
{
    if s.len() < 2 {
        Some(Seq::empty())
    } else {
        match (hex_pairs(s.take(s.len() - 2)), hex_pair(s[s.len() - 2], s[s.len() - 1])) {
            (Some(r), Some(v)) => Some(r.push(v)),
            _ => None,
        }
    }
}

pub open spec fn is_ascii_text(s: Seq<char>) -> bool {
    forall|i: int| 0 <= i < s.len() ==> (#[trigger] s[i] as int) < 128
}

/// Hex decoding: an ASCII text of even length whose every pair reads as a
/// byte; anything else is refused.
pub open spec fn hex_decode(s: Seq<char>) -> Option<Seq<u8>> {
    if !is_ascii_text(s) || s.len() % 2 != 0 {
        None
    } else {
        hex_pairs(s)
    }
}

fn hex_digit(d: u8) -> (c: char)
    requires
        d < 16,
    ensures
        c == hex_digits()[d as int],
{
    let digits: [char; 16] = ['0', '1', '2', '3', '4', '5', '6', '7', '8', '9', 'a', 'b', 'c', 'd', 'e', 'f'];
    assert(digits@ =~= hex_digits());
    digits[d as usize]
}

/// Encodes bytes as lowercase hex, two digits per byte.
pub fn encode(bytes: &[u8]) -> (s: String)
    ensures
        s@ == hex_encode(bytes@),
{
    let mut s = String::new();
    let mut i: usize = 0;
    while i < bytes.len()
        invariant
            i <= bytes@.len(),
            s@ == hex_encode(bytes@.take(i as int)),
        decreases bytes@.len() - i,
    {
        let b = bytes[i];
        push_char(&mut s, hex_digit(b / 16));
        push_char(&mut s, hex_digit(b % 16));
        assert(bytes@.take(i + 1).drop_last() =~= bytes@.take(i as int));
        i = i + 1;
        assert(s@ =~= hex_encode(bytes@.take(i as int)));
    }
    assert(bytes@.take(bytes@.len() as int) =~= bytes@);
    s
}

fn hex_value_of(c: char) -> (v: Option<u8>)
    ensures
        match v {
            Some(x) => hex_value(c) == Some(x as int) && x < 16,
            None => hex_value(c) is None,
        },
{
    if '0' <= c && c <= '9' {
        Some(((c as u32) - ('0' as u32)) as u8)
    } else if 'a' <= c && c <= 'f' {
        Some(((c as u32) - ('a' as u32) + 10) as u8)
    } else if 'A' <= c && c <= 'F' {
        Some(((c as u32) - ('A' as u32) + 10) as u8)
    } else {
        None
    }
}

fn hex_pair_of(a: char, b: char) -> (v: Option<u8>)
    ensures
        v == hex_pair(a, b),
{
    if a == '+' {
        match hex_value_of(b) {
            Some(y) => Some(y),
            None => None,
        }
    } else {
        match (hex_value_of(a), hex_value_of(b)) {
            (Some(x), Some(y)) => Some(16 * x + y),
            _ => None,
        }
    }
}

/// Decodes a hex string: an ASCII text of even length whose pairs are each
/// two hex digits (or `+` and a digit, as `u8::from_str_radix` reads them).
pub fn decode(s: &str) -> (r: Result<Vec<u8>, ()>)
    ensures
        match r {
            Ok(v) => hex_decode(s@) == Some(v@),
            Err(_) => hex_decode(s@) is None,
        },
{
    let v = chars_of(s);
    let mut k: usize = 0;
    while k < v.len()
        invariant
            k <= v@.len(),
            v@ == s@,
            forall|i: int| 0 <= i < k ==> (#[trigger] v@[i] as int) < 128,
        decreases v@.len() - k,
    {
        if v[k] > '\x7f' {
            assert((v@[k as int] as int) >= 128);
            assert(!is_ascii_text(s@));
            return Err(());
        }
        k = k + 1;
    }
    if v.len() % 2 != 0 {
        return Err(());
    }
    let mut out: Vec<u8> = Vec::new();
    let mut i: usize = 0;
    assert(v@.take(0) =~= Seq::<char>::empty());
    while i < v.len()
        invariant
            i <= v@.len(),
            i % 2 == 0,
            v@.len() % 2 == 0,
            v@ == s@,
            is_ascii_text(s@),
            hex_pairs(v@.take(i as int)) == Some(out@),
        decreases v@.len() - i,
    {
        let p = hex_pair_of(v[i], v[i + 1]);
        let ghost t = v@.take(i + 2);
        assert(t.take(t.len() - 2) =~= v@.take(i as int));
        assert(t[t.len() - 2] == v@[i as int]);
        assert(t[t.len() - 1] == v@[i + 1]);
        match p {
            Some(b) => {
                out.push(b);
            },
            None => {
                proof {
                    lemma_hex_pairs_fail(v@, i as int + 2);
                    assert(v@.take(v@.len() as int) =~= v@);
                }
                return Err(());
            },
        }
        i = i + 2;
    }
    assert(v@.take(v@.len() as int) =~= v@);
    Ok(out)
}

/// Once a pair fails, decoding any longer even prefix fails.
proof fn lemma_hex_pairs_fail(s: Seq<char>, n: int)
    requires
        2 <= n <= s.len(),
        n % 2 == 0,
        s.len() % 2 == 0,
        hex_pairs(s.take(n)) is None,
    ensures
        hex_pairs(s.take(s.len() as int)) is None,
    decreases s.len() - n,
{
    if n < s.len() {
        let t = s.take(n + 2);
        assert(t.take(t.len() - 2) =~= s.take(n));
        lemma_hex_pairs_fail(s, n + 2);
    }
}

proof fn lemma_hex_digit_value(d: int)
    requires
        0 <= d < 16,
    ensures
        hex_value(hex_digits()[d]) == Some(d),
{
    reveal_with_fuel(hex_value, 1);
}

/// Decoding the hex encoding of bytes gives the bytes back.
pub proof fn law_hex_roundtrip(bytes: Seq<u8>)
    ensures
        hex_decode(hex_encode(bytes)) == Some(bytes),
{
    lemma_hex_encode(bytes);
}

proof fn lemma_hex_encode(bytes: Seq<u8>)
    ensures
        hex_encode(bytes).len() == 2 * bytes.len(),
        is_ascii_text(hex_encode(bytes)),
        hex_pairs(hex_encode(bytes)) == Some(bytes),
    decreases bytes.len(),
{
    if bytes.len() > 0 {
        let rest = bytes.drop_last();
        lemma_hex_encode(rest);
        let b = bytes.last();
        let hi = b as int / 16;
        let lo = b as int % 16;
        lemma_hex_digit_value(hi);
        lemma_hex_digit_value(lo);
        let e = hex_encode(bytes);
        assert(e =~= hex_encode(rest) + seq![hex_digits()[hi], hex_digits()[lo]]);
        assert(e.take(e.len() - 2) =~= hex_encode(rest));
        assert(e[e.len() - 2] == hex_digits()[hi]);
        assert(e[e.len() - 1] == hex_digits()[lo]);
        assert(hex_digits()[hi] != '+');
        assert(hex_pair(hex_digits()[hi], hex_digits()[lo]) == Some(b));
        assert(rest.push(b) =~= bytes);
        assert forall|i: int| 0 <= i < e.len() implies (#[trigger] e[i] as int) < 128 by {
            if i < e.len() - 2 {
                assert(e[i] == hex_encode(rest)[i]);
            }
        }
    }
}

// ---------------------------------------------------------------------------
// Errors

/// Protocol errors.
#[derive(Debug, Clone)]
pub enum ProtocolError {
    InvalidGuidPrefix,
    InvalidEntityId,
    InvalidMessage(String),
    IoError(String),
}

pub open spec fn protocol_error_message(e: ProtocolError) -> Seq<char> {
    match e {
        ProtocolError::InvalidGuidPrefix => "Invalid GUID prefix"@,
        ProtocolError::InvalidEntityId => "Invalid entity ID"@,
        ProtocolError::InvalidMessage(s) => "Invalid message: "@ + s@,
        ProtocolError::IoError(s) => "I/O error: "@ + s@,
    }
}

impl ProtocolError {
    /// The error's message.
    pub fn message(&self) -> (m: String)
        ensures
            m@ == protocol_error_message(*self),
    {
        match self {
            ProtocolError::InvalidGuidPrefix => String::from_str("Invalid GUID prefix"),
            ProtocolError::InvalidEntityId => String::from_str("Invalid entity ID"),
            ProtocolError::InvalidMessage(s) => {
                let mut m = String::from_str("Invalid message: ");
                m.append(s.as_str());
                m
            },
            ProtocolError::IoError(s) => {
                let mut m = String::from_str("I/O error: ");
                m.append(s.as_str());
                m
            },
        }
    }
}

// ---------------------------------------------------------------------------
// GUID parts on the wire

/// A GUID prefix on the wire: its 12 bytes as hex.
#[derive(Debug, Clone)]
pub struct GuidPrefixWire(pub String);

/// An entity ID on the wire: its 4 bytes as hex.
#[derive(Debug, Clone)]
pub struct EntityIdWire(pub String);

impl GuidPrefixWire {
    /// The wire form of a GUID prefix.
    pub fn from_prefix(gp: [u8; 12]) -> (w: Self)
        ensures
            w.0@ == hex_encode(gp@),
    {
        GuidPrefixWire(encode(gp.as_slice()))
    }
}

impl EntityIdWire {
    /// The wire form of an entity ID.
    pub fn from_entity_id(eid: [u8; 4]) -> (w: Self)
        ensures
            w.0@ == hex_encode(eid@),
    {
        EntityIdWire(encode(eid.as_slice()))
    }
}

/// The GUID prefix of a wire string: hex of exactly 12 bytes, else
/// `InvalidGuidPrefix`.
pub fn guid_prefix_from_wire(wire: &GuidPrefixWire) -> (r: Result<[u8; 12], ProtocolError>)
    ensures
        match r {
            Ok(gp) => hex_decode(wire.0@) == Some(gp@),
            Err(e) => e is InvalidGuidPrefix && !(hex_decode(wire.0@) matches Some(b) && b.len() == 12),
        },
{
    match decode(wire.0.as_str()) {
        Ok(b) => {
            if b.len() != 12 {
                return Err(ProtocolError::InvalidGuidPrefix);
            }
            let gp: [u8; 12] = [b[0], b[1], b[2], b[3], b[4], b[5], b[6], b[7], b[8], b[9], b[10], b[11]];
            assert(gp@ =~= b@);
            Ok(gp)
        },
        Err(_) => Err(ProtocolError::InvalidGuidPrefix),
    }
}

/// The entity ID of a wire string: hex of exactly 4 bytes, else
/// `InvalidEntityId`.
pub fn entity_id_from_wire(wire: &EntityIdWire) -> (r: Result<[u8; 4], ProtocolError>)
    ensures
        match r {
            Ok(eid) => hex_decode(wire.0@) == Some(eid@),
            Err(e) => e is InvalidEntityId && !(hex_decode(wire.0@) matches Some(b) && b.len() == 4),
        },
{
    match decode(wire.0.as_str()) {
        Ok(b) => {
            if b.len() != 4 {
                return Err(ProtocolError::InvalidEntityId);
            }
            let eid: [u8; 4] = [b[0], b[1], b[2], b[3]];
            assert(eid@ =~= b@);
            Ok(eid)
        },
        Err(_) => Err(ProtocolError::InvalidEntityId),
    }
}

/// A GUID prefix sent on the wire reads back as itself.
pub proof fn law_guid_prefix_wire_roundtrip(gp: [u8; 12])
    ensures
        hex_decode(hex_encode(gp@)) == Some(gp@),
        gp@.len() == 12,
{
    law_hex_roundtrip(gp@);
}

/// An entity ID sent on the wire reads back as itself.
pub proof fn law_entity_id_wire_roundtrip(eid: [u8; 4])
    ensures
        hex_decode(hex_encode(eid@)) == Some(eid@),
        eid@.len() == 4,
{
    law_hex_roundtrip(eid@);
}

// ---------------------------------------------------------------------------
// Messages

/// A participant as announced on the wire; locators are socket-address texts.
#[derive(Debug)]
pub struct ParticipantInfoWire {
    pub guid_prefix: GuidPrefixWire,
    pub domain_id: u32,
    pub name: Option<String>,
    pub unicast_locators: Vec<String>,
    pub default_unicast_locators: Vec<String>,
    pub vendor_id: [u8; 2],
    pub protocol_version: (u8, u8),
    pub builtin_endpoints: u32,
}

/// An endpoint as announced on the wire.
#[derive(Debug, Clone)]
pub struct EndpointInfoWire {
    pub guid_prefix: GuidPrefixWire,
    pub entity_id: EntityIdWire,
    pub topic_name: String,
    pub data_type: String,
    pub is_writer: bool,
    pub reliable: bool,
    pub durability: u8,
    pub unicast_locators: Vec<String>,
}

/// Discovery protocol messages.
#[derive(Debug)]
pub enum DiscoveryMessage {
    /// A participant announces itself.
    ParticipantAnnounce(ParticipantInfoWire),
    /// The server acknowledges a participant's registration.
    ParticipantAck { guid_prefix: GuidPrefixWire },
    /// A participant leaves.
    ParticipantLeave { guid_prefix: GuidPrefixWire },
    /// A writer or reader is announced.
    EndpointAnnounce(EndpointInfoWire),
    /// Keeps a participant's lease alive.
    Heartbeat { guid_prefix: GuidPrefixWire },
    /// An error.
    Error { code: u32, message: String },
    /// Data relayed to a destination participant.
    Data { destination: GuidPrefixWire, payload: Vec<u8> },
}

} // verus!
