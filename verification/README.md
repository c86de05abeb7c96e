# hdds_tools

Verified logic of the HDDS middleware tools, written in Verus.

- `src/` is the library. Its functions are verified against their
  `requires`/`ensures`, except seventeen small wrappers marked
  `#[verifier::external_body]`, whose contracts are trusted. Each makes one
  call into std, chrono or serde_json:
  - `clock.rs`: `instant_now`, `elapsed_since`, `duration_ge`,
    `duration_from_millis`, `duration_from_secs` (std `Instant`, `Duration`);
  - `logger.rs`: `to_uppercase` (`str::to_uppercase`);
  - `logger_collector.rs`: `from_utf8_lossy` (`String::from_utf8_lossy`),
    `utc_timestamp_valid` and `utc_now` (chrono);
  - `logger_config.rs`: `trim` (`str::trim`), `file_stem`, `file_extension`,
    `with_file_name` (`std::path::Path`);
  - `logger_format.rs`: `format_utc`, `rfc3339` (chrono), `json_string`
    (`serde_json::to_string`);
  - `text.rs`: `push_char` (`String::push`).

  The modules:
  - `cdr`, `ros_codec`, `ros_params`, `ros_introspection`, `ros_layout`,
    `ros_types`: little-endian CDR encoding and decoding of ROS 2 messages
    (`std_msgs/String`, `rcl_interfaces/Log`, `ParameterEvent`, and any
    message described by type-support introspection), with round-trip laws,
    and the dynamic type of an introspected member.
  - `discovery_protocol`, `discovery_registry`, `discovery_relay`,
    `discovery_config`, `discovery_server`: the discovery server's wire
    forms, participant/endpoint registry, relay router, configuration and
    framing, and the per-message decision function `process_message`.
  - `logger*`, `glob`: the distributed logger's entries, filters, formatters,
    configuration, size parsing, file rotation plan, ROS 2 log parsing and
    the choice of topics to read after each discovery round.
  - `influx_line`, `influx_mapping`, `influx_sink`: InfluxDB Line Protocol,
    JSON-to-field mapping, batching, rate limiting and the DDS sink.
  - `gateway`: the admin protocol's request and response framing.
  - `text`, `clock`: string helpers and the monotonic clock.
- `tests/` exercises the library with concrete values.
- `app/` is the unverified shell: the discovery server's TCP/async loop, file
  and syslog outputs of the logger, YAML/JSON configuration files and the
  admin client's socket I/O.
