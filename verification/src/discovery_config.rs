//! Discovery server configuration, errors, and the length-prefixed framing
//! of messages.
use vstd::prelude::*;
use std::time::Duration;
use crate::clock::{duration_from_secs, secs_duration};
use crate::text::{decimal, push_decimal, push_str};

verus! {

// ---------------------------------------------------------------------------
// Configuration

/// Discovery server configuration.
pub struct ServerConfig {
    /// Address to bind to, as text (default `0.0.0.0`).
    pub bind_address: String,
    /// TCP port (default 7400).
    pub port: u16,
    /// Domain served (0 for all).
    pub domain_id: u32,
    /// Participant lease in seconds (default 30).
    pub lease_duration_secs: u64,
    /// Forward DATA between participants.
    pub relay_enabled: bool,
    /// Most participants (default 1000).
    pub max_participants: usize,
    /// Most endpoints per participant (default 10000).
    pub max_endpoints_per_participant: usize,
    /// Lease check interval in seconds (default 5).
    pub heartbeat_interval_secs: u64,
    /// TCP keepalive (default on).
    pub tcp_keepalive: bool,
    /// TCP keepalive interval in seconds (default 15).
    pub tcp_keepalive_interval_secs: u64,
    /// Largest message in bytes (default 16 MiB).
    pub max_message_size: usize,
    /// TLS (needs a certificate and a key).
    pub tls_enabled: bool,
    pub tls_cert_path: Option<String>,
    pub tls_key_path: Option<String>,
}

pub const DEFAULT_PORT: u16 = 7400;

pub const DEFAULT_LEASE_DURATION_SECS: u64 = 30;

pub const DEFAULT_MAX_PARTICIPANTS: usize = 1000;

pub const DEFAULT_MAX_ENDPOINTS: usize = 10000;

pub const DEFAULT_HEARTBEAT_INTERVAL_SECS: u64 = 5;

pub const DEFAULT_KEEPALIVE_INTERVAL_SECS: u64 = 15;

pub const DEFAULT_MAX_MESSAGE_SIZE: usize = 16777216;

impl Default for ServerConfig {
    fn default() -> (c: Self)
        ensures
            c.bind_address@ == "0.0.0.0"@,
            c.port == DEFAULT_PORT,
            c.domain_id == 0,
            c.lease_duration_secs == DEFAULT_LEASE_DURATION_SECS,
            !c.relay_enabled,
            c.max_participants == DEFAULT_MAX_PARTICIPANTS,
            c.max_endpoints_per_participant == DEFAULT_MAX_ENDPOINTS,
            c.heartbeat_interval_secs == DEFAULT_HEARTBEAT_INTERVAL_SECS,
            c.tcp_keepalive,
            c.tcp_keepalive_interval_secs == DEFAULT_KEEPALIVE_INTERVAL_SECS,
            c.max_message_size == DEFAULT_MAX_MESSAGE_SIZE,
            !c.tls_enabled,
            c.tls_cert_path is None,
            c.tls_key_path is None,
    {
        ServerConfig {
            bind_address: String::from_str("0.0.0.0"),
            port: DEFAULT_PORT,
            domain_id: 0,
            lease_duration_secs: DEFAULT_LEASE_DURATION_SECS,
            relay_enabled: false,
            max_participants: DEFAULT_MAX_PARTICIPANTS,
            max_endpoints_per_participant: DEFAULT_MAX_ENDPOINTS,
            heartbeat_interval_secs: DEFAULT_HEARTBEAT_INTERVAL_SECS,
            tcp_keepalive: true,
            tcp_keepalive_interval_secs: DEFAULT_KEEPALIVE_INTERVAL_SECS,
            max_message_size: DEFAULT_MAX_MESSAGE_SIZE,
            tls_enabled: false,
            tls_cert_path: None,
            tls_key_path: None,
        }
    }
}

/// Configuration errors.
#[derive(Debug, Clone)]
pub enum ConfigError {
    IoError(String),
    ParseError(String),
    SerializeError(String),
    InvalidValue(String),
}

pub open spec fn config_error_message(e: ConfigError) -> Seq<char> {
    match e {
        ConfigError::IoError(s) => "I/O error: "@ + s@,
        ConfigError::ParseError(s) => "Parse error: "@ + s@,
        ConfigError::SerializeError(s) => "Serialize error: "@ + s@,
        ConfigError::InvalidValue(s) => "Invalid value: "@ + s@,
    }
}

impl ConfigError {
    /// The error's message.
    pub fn message(&self) -> (m: String)
        ensures
            m@ == config_error_message(*self),
    {
        let (head, tail) = match self {
            ConfigError::IoError(s) => ("I/O error: ", s),
            ConfigError::ParseError(s) => ("Parse error: ", s),
            ConfigError::SerializeError(s) => ("Serialize error: ", s),
            ConfigError::InvalidValue(s) => ("Invalid value: ", s),
        };
        let mut m = String::from_str(head);
        m.append(tail.as_str());
        m
    }
}

/// The reason `validate` gives for a configuration, if any: the first of a
/// zero port, a zero lease, a zero participant limit, and TLS without a
/// certificate or a key.
pub open spec fn config_problem(c: ServerConfig) -> Option<Seq<char>> {
    if c.port == 0 {
        Some("port cannot be 0"@)
    } else if c.lease_duration_secs == 0 {
        Some("lease_duration_secs cannot be 0"@)
    } else if c.max_participants == 0 {
        Some("max_participants cannot be 0"@)
    } else if c.tls_enabled && c.tls_cert_path is None {
        Some("tls_cert_path required when TLS enabled"@)
    } else if c.tls_enabled && c.tls_key_path is None {
        Some("tls_key_path required when TLS enabled"@)
    } else {
        None
    }
}

fn invalid(text: &str) -> (e: ConfigError)
    ensures
        e matches ConfigError::InvalidValue(s) && s@ == text@,
{
    ConfigError::InvalidValue(String::from_str(text))
}

impl ServerConfig {
    /// The lease as a `Duration` of `lease_duration_secs` seconds.
    pub fn lease_duration(&self) -> (d: Duration)
        ensures
            d == secs_duration(self.lease_duration_secs),
    {
        duration_from_secs(self.lease_duration_secs)
    }

    /// The lease check interval as a `Duration`.
    pub fn heartbeat_interval(&self) -> (d: Duration)
        ensures
            d == secs_duration(self.heartbeat_interval_secs),
    {
        duration_from_secs(self.heartbeat_interval_secs)
    }

    /// Checks the configuration.
    pub fn validate(&self) -> (r: Result<(), ConfigError>)
        ensures
            match config_problem(*self) {
                None => r is Ok,
                Some(reason) => r matches Err(ConfigError::InvalidValue(s)) && s@ == reason,
            },
    {
        if self.port == 0 {
            return Err(invalid("port cannot be 0"));
        }
        if self.lease_duration_secs == 0 {
            return Err(invalid("lease_duration_secs cannot be 0"));
        }
        if self.max_participants == 0 {
            return Err(invalid("max_participants cannot be 0"));
        }
        if self.tls_enabled {
            if self.tls_cert_path.is_none() {
                return Err(invalid("tls_cert_path required when TLS enabled"));
            }
            if self.tls_key_path.is_none() {
                return Err(invalid("tls_key_path required when TLS enabled"));
            }
        }
        Ok(())
    }
}

// ---------------------------------------------------------------------------
// Errors

/// Server errors.
#[derive(Debug)]
pub enum ServerError {
    Config(String),
    Bind(String),
    AlreadyRunning,
    Io(String),
    Protocol(String),
}

pub open spec fn server_error_message(e: ServerError) -> Seq<char> {
    match e {
        ServerError::Config(s) => "Configuration error: "@ + s@,
        ServerError::Bind(s) => "Bind error: "@ + s@,
        ServerError::AlreadyRunning => "Server already running"@,
        ServerError::Io(s) => "I/O error: "@ + s@,
        ServerError::Protocol(s) => "Protocol error: "@ + s@,
    }
}

impl ServerError {
    /// The error's message.
    pub fn message(&self) -> (m: String)
        ensures
            m@ == server_error_message(*self),
    {
        match self {
            ServerError::Config(s) => {
                let mut m = String::from_str("Configuration error: ");
                m.append(s.as_str());
                m
            },
            ServerError::Bind(s) => {
                let mut m = String::from_str("Bind error: ");
                m.append(s.as_str());
                m
            },
            ServerError::AlreadyRunning => String::from_str("Server already running"),
            ServerError::Io(s) => {
                let mut m = String::from_str("I/O error: ");
                m.append(s.as_str());
                m
            },
            ServerError::Protocol(s) => {
                let mut m = String::from_str("Protocol error: ");
                m.append(s.as_str());
                m
            },
        }
    }

    /// A connection error becomes an I/O error carrying its message.
    pub fn from_connection(e: &ConnectionError) -> (r: ServerError)
        ensures
            r matches ServerError::Io(s) && s@ == connection_error_message(*e),
    {
        ServerError::Io(e.message())
    }
}

/// Connection errors.
#[derive(Debug)]
pub enum ConnectionError {
    Io(String),
    Protocol(String),
}

pub open spec fn connection_error_message(e: ConnectionError) -> Seq<char> {
    match e {
        ConnectionError::Io(s) => "I/O error: "@ + s@,
        ConnectionError::Protocol(s) => "Protocol error: "@ + s@,
    }
}

impl ConnectionError {
    /// The error's message.
    pub fn message(&self) -> (m: String)
        ensures
            m@ == connection_error_message(*self),
    {
        match self {
            ConnectionError::Io(s) => {
                let mut m = String::from_str("I/O error: ");
                m.append(s.as_str());
                m
            },
            ConnectionError::Protocol(s) => {
                let mut m = String::from_str("Protocol error: ");
                m.append(s.as_str());
                m
            },
        }
    }
}

// ---------------------------------------------------------------------------
// Framing: a 4-byte big-endian length, then the JSON body.

/// The length a big-endian header holds.
pub open spec fn be_value(h: Seq<u8>) -> int {
    h[0] * 16777216 + h[1] * 65536 + h[2] * 256 + h[3]
}

/// The length in a frame header.
pub fn frame_length(header: [u8; 4]) -> (n: u32)
    ensures
        n == be_value(header@),
{
    (header[0] as u32) * 16777216 + (header[1] as u32) * 65536 + (header[2] as u32) * 256 + (header[3] as u32)
}

/// The header of a body of `len` bytes.
pub fn frame_header(len: u32) -> (h: [u8; 4])
    ensures
        be_value(h@) == len,
{
    let h: [u8; 4] = [
        (len / 16777216) as u8,
        ((len / 65536) % 256) as u8,
        ((len / 256) % 256) as u8,
        (len % 256) as u8,
    ];
    assert(be_value(h@) == len) by (nonlinear_arith)
        requires
            h@[0] == len / 16777216,
            h@[1] == (len / 65536) % 256,
            h@[2] == (len / 256) % 256,
            h@[3] == len % 256,
    ;
    h
}

/// A header read back gives the length it was made for.
pub proof fn law_frame_header_roundtrip(len: u32, h: Seq<u8>)
    requires
        h.len() == 4,
        h[0] == len / 16777216,
        h[1] == (len / 65536) % 256,
        h[2] == (len / 256) % 256,
        h[3] == len % 256,
    ensures
        be_value(h) == len,
{
    assert(be_value(h) == len) by (nonlinear_arith)
        requires
            h[0] == len / 16777216,
            h[1] == (len / 65536) % 256,
            h[2] == (len / 256) % 256,
            h[3] == len % 256,
    ;
}

pub open spec fn too_large_message(head: Seq<char>, len: nat, max: nat) -> Seq<char> {
    head + decimal(len) + " > "@ + decimal(max)
}

/// Checks a received length: a zero length is an empty message, one above
/// `max_message_size` too large.
pub fn check_frame_length(len: u32, max_message_size: usize) -> (r: Result<usize, ConnectionError>)
    ensures
        len == 0 ==> (r matches Err(ConnectionError::Protocol(s)) && s@ == "Empty message"@),
        len != 0 && len > max_message_size ==> (r matches Err(ConnectionError::Protocol(s)) && s@
            == too_large_message("Message too large: "@, len as nat, max_message_size as nat)),
        len != 0 && len <= max_message_size ==> r == Ok::<usize, ConnectionError>(len as usize),
{
    if len == 0 {
        return Err(ConnectionError::Protocol(String::from_str("Empty message")));
    }
    if len as usize > max_message_size {
        let mut m = String::from_str("Message too large: ");
        push_decimal(&mut m, len as u64);
        push_str(&mut m, " > ");
        push_decimal(&mut m, max_message_size as u64);
        return Err(ConnectionError::Protocol(m));
    }
    Ok(len as usize)
}

/// The header for an outgoing body of `body_len` bytes, unless it is above
/// `max_message_size`. The length is written as a `u32`, keeping its low
/// 32 bits.
pub fn outgoing_header(body_len: usize, max_message_size: usize) -> (r: Result<[u8; 4], ConnectionError>)
    ensures
        body_len > max_message_size ==> (r matches Err(ConnectionError::Protocol(s)) && s@
            == too_large_message("Response too large: "@, body_len as nat, max_message_size as nat)),
        body_len <= max_message_size ==> (r matches Ok(h) && be_value(h@) == body_len as int % 4294967296),
{
    if body_len > max_message_size {
        let mut m = String::from_str("Response too large: ");
        push_decimal(&mut m, body_len as u64);
        push_str(&mut m, " > ");
        push_decimal(&mut m, max_message_size as u64);
        return Err(ConnectionError::Protocol(m));
    }
    let low: u32 = (body_len as u64 % 4294967296) as u32;
    Ok(frame_header(low))
}

} // verus!
