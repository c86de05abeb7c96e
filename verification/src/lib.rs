//! Verified logic of the HDDS middleware tools: CDR codecs for ROS 2
//! messages, the discovery-server protocol and registry, the distributed
//! logger and the InfluxDB sink.
pub mod cdr;
pub mod ros_codec;
pub mod ros_params;
pub mod text;
pub mod glob;
pub mod logger;
pub mod logger_config;
pub mod logger_format;
pub mod logger_collector;
pub mod logger_stop;
pub mod clock;
pub mod influx_line;
pub mod influx_sink;
pub mod influx_mapping;
pub mod discovery_protocol;
pub mod discovery_registry;
pub mod discovery_relay;
pub mod discovery_config;
pub mod discovery_server;
pub mod gateway;
pub mod ros_introspection;
pub mod ros_types;
pub mod logger_output;
pub mod ros_layout;
