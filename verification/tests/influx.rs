use hdds_tools::influx_line::{FieldValue, LineProtocolWriter};
use hdds_tools::influx_mapping::{FieldMapper, JsonNumber, JsonValue};
use hdds_tools::influx_sink::{
    BatchBuffer, DdsSink, InfluxDbConfig, SinkConfig, SinkError, TopicSinkConfig,
};
use std::time::Duration;

fn float(v: f64) -> FieldValue {
    FieldValue::Float(format!("{}", v))
}

fn num_f(v: f64) -> JsonValue {
    JsonValue::Number(JsonNumber::Other {
        text: serde_json::Number::from_f64(v).unwrap().to_string(),
        float_text: format!("{}", v),
    })
}

fn num_i(v: i64) -> JsonValue {
    JsonValue::Number(JsonNumber::Int(v))
}

fn s(v: &str) -> JsonValue {
    JsonValue::String(v.to_string())
}

fn obj(entries: Vec<(&str, JsonValue)>) -> JsonValue {
    JsonValue::Object(entries.into_iter().map(|(k, v)| (k.to_string(), v)).collect())
}

fn float_of(v: &FieldValue) -> f64 {
    match v {
        FieldValue::Float(t) => t.parse::<f64>().unwrap(),
        _ => panic!("expected Float"),
    }
}

// ---- line protocol ----

#[test]
fn test_field_value_float() {
    assert_eq!(float(3.15).to_line_protocol(), "3.15");
}

#[test]
fn test_field_value_integer() {
    assert_eq!(FieldValue::Integer(42).to_line_protocol(), "42i");
}

#[test]
fn test_field_value_string() {
    let v = FieldValue::String("hello world".to_string());
    assert_eq!(v.to_line_protocol(), "\"hello world\"");
}

#[test]
fn test_field_value_string_with_quotes() {
    let v = FieldValue::String("say \"hi\"".to_string());
    assert_eq!(v.to_line_protocol(), "\"say \\\"hi\\\"\"");
}

#[test]
fn test_field_value_boolean() {
    assert_eq!(FieldValue::Boolean(true).to_line_protocol(), "true");
    assert_eq!(FieldValue::Boolean(false).to_line_protocol(), "false");
}

#[test]
fn test_line_protocol_simple_point() {
    let mut writer = LineProtocolWriter::new();
    writer.write_point("temperature", &[], &[("value", float(23.5))], 1_000_000_000);
    let lines = writer.flush();
    assert_eq!(lines.len(), 1);
    assert_eq!(lines[0], "temperature value=23.5 1000000000");
}

#[test]
fn test_line_protocol_with_tags() {
    let mut writer = LineProtocolWriter::new();
    writer.write_point(
        "temperature",
        &[("sensor", "A1"), ("location", "room1")],
        &[("value", float(23.5))],
        1_000_000_000,
    );
    let lines = writer.flush();
    assert_eq!(lines.len(), 1);
    assert_eq!(lines[0], "temperature,location=room1,sensor=A1 value=23.5 1000000000");
}

#[test]
fn test_line_protocol_multiple_fields() {
    let mut writer = LineProtocolWriter::new();
    writer.write_point(
        "weather",
        &[("station", "north")],
        &[
            ("temp", float(22.1)),
            ("humidity", FieldValue::Integer(65)),
            ("ok", FieldValue::Boolean(true)),
        ],
        2_000_000_000,
    );
    let lines = writer.flush();
    assert_eq!(lines.len(), 1);
    assert_eq!(lines[0], "weather,station=north temp=22.1,humidity=65i,ok=true 2000000000");
}

#[test]
fn test_line_protocol_escape_special_chars() {
    let mut writer = LineProtocolWriter::new();
    writer.write_point(
        "my measurement",
        &[("tag key", "tag,value")],
        &[("field=key", FieldValue::String("hello \"world\"".to_string()))],
        3_000_000_000,
    );
    let lines = writer.flush();
    assert_eq!(lines.len(), 1);
    assert_eq!(
        lines[0],
        "my\\ measurement,tag\\ key=tag\\,value field\\=key=\"hello \\\"world\\\"\" 3000000000"
    );
}

#[test]
fn test_writer_len_and_empty() {
    let mut writer = LineProtocolWriter::new();
    assert!(writer.is_empty());
    assert_eq!(writer.len(), 0);
    writer.write_point("m", &[], &[("f", FieldValue::Integer(1))], 1);
    assert!(!writer.is_empty());
    assert_eq!(writer.len(), 1);
    writer.flush();
    assert!(writer.is_empty());
}

#[test]
fn tags_with_equal_keys_keep_their_order() {
    let mut writer = LineProtocolWriter::new();
    writer.write_point("m", &[("b", "1"), ("a", "2"), ("b", "0")], &[("f", FieldValue::Integer(1))], 7);
    assert_eq!(writer.flush()[0], "m,a=2,b=1,b=0 f=1i 7");
}

#[test]
fn negative_integer_and_backslash_string() {
    assert_eq!(FieldValue::Integer(-5).to_line_protocol(), "-5i");
    assert_eq!(FieldValue::String("a\\b".to_string()).to_line_protocol(), "\"a\\\\b\"");
}

// ---- batching ----

#[test]
fn test_batch_buffer_returns_none_until_full() {
    let mut buf = BatchBuffer::new(3, Duration::from_secs(60));
    assert!(buf.add("line1".to_string()).is_none());
    assert_eq!(buf.len(), 1);
    assert!(buf.add("line2".to_string()).is_none());
    assert_eq!(buf.len(), 2);
    assert!(!buf.is_empty());
}

#[test]
fn test_batch_buffer_returns_batch_when_full() {
    let mut buf = BatchBuffer::new(3, Duration::from_secs(60));
    buf.add("line1".to_string());
    buf.add("line2".to_string());
    let result = buf.add("line3".to_string());
    assert!(result.is_some());
    let batch = result.unwrap();
    assert_eq!(batch.len(), 3);
    assert_eq!(batch[0], "line1");
    assert_eq!(batch[1], "line2");
    assert_eq!(batch[2], "line3");
    assert!(buf.is_empty());
    assert_eq!(buf.len(), 0);
}

#[test]
fn test_batch_buffer_time_based_flush() {
    let mut buf = BatchBuffer::new(1000, Duration::from_millis(0));
    buf.add("line1".to_string());
    assert!(buf.should_flush());
    let batch = buf.flush();
    assert_eq!(batch.len(), 1);
    assert_eq!(batch[0], "line1");
    assert!(buf.is_empty());
}

#[test]
fn test_batch_buffer_no_flush_when_empty() {
    let buf = BatchBuffer::new(10, Duration::from_millis(0));
    assert!(!buf.should_flush());
}

#[test]
fn test_batch_buffer_manual_flush() {
    let mut buf = BatchBuffer::new(100, Duration::from_secs(60));
    buf.add("a".to_string());
    buf.add("b".to_string());
    let batch = buf.flush();
    assert_eq!(batch.len(), 2);
    assert!(buf.is_empty());
}

#[test]
fn flush_due_needs_lines_and_time() {
    let mut buf = BatchBuffer::new(10, Duration::from_secs(3600));
    assert!(!buf.flush_due(true));
    buf.add("x".to_string());
    assert!(buf.flush_due(true));
    assert!(!buf.flush_due(false));
    assert!(!buf.should_flush());
}

// ---- mapping ----

#[test]
fn test_map_sample_basic() {
    let mapper = FieldMapper::new(vec!["sensor_id".to_string()], vec!["value".to_string()]);
    let sample = obj(vec![("sensor_id", s("sensor-42")), ("value", num_f(23.5)), ("extra", s("ignored"))]);
    let (tags, fields) = mapper.map_sample(&sample);
    assert_eq!(tags.len(), 1);
    assert_eq!(tags[0].0, "sensor_id");
    assert_eq!(tags[0].1, "sensor-42");
    assert_eq!(fields.len(), 1);
    assert_eq!(fields[0].0, "value");
    assert!((float_of(&fields[0].1) - 23.5).abs() < f64::EPSILON);
}

#[test]
fn test_map_sample_missing_field_handled_gracefully() {
    let mapper = FieldMapper::new(
        vec!["sensor_id".to_string(), "missing_tag".to_string()],
        vec!["value".to_string(), "missing_field".to_string()],
    );
    let sample = obj(vec![("sensor_id", s("sensor-1")), ("value", num_i(100))]);
    let (tags, fields) = mapper.map_sample(&sample);
    assert_eq!(tags.len(), 1);
    assert_eq!(tags[0].0, "sensor_id");
    assert_eq!(tags[0].1, "sensor-1");
    assert_eq!(fields.len(), 1);
    assert_eq!(fields[0].0, "value");
    match &fields[0].1 {
        FieldValue::Integer(v) => assert_eq!(*v, 100),
        other => panic!("expected Integer, got {:?}", other),
    }
}

#[test]
fn test_map_sample_nested_fields() {
    let mapper = FieldMapper::new(
        vec!["meta.region".to_string()],
        vec!["location.lat".to_string(), "location.lon".to_string()],
    );
    let sample = obj(vec![
        ("meta", obj(vec![("region", s("eu-west"))])),
        ("location", obj(vec![("lat", num_f(48.8566)), ("lon", num_f(2.3522))])),
    ]);
    let (tags, fields) = mapper.map_sample(&sample);
    assert_eq!(tags.len(), 1);
    assert_eq!(tags[0].1, "eu-west");
    assert_eq!(fields.len(), 2);
    assert!((float_of(&fields[0].1) - 48.8566).abs() < 0.0001);
    assert!((float_of(&fields[1].1) - 2.3522).abs() < 0.0001);
}

#[test]
fn test_map_sample_all_types() {
    let mapper = FieldMapper::new(
        vec![],
        vec!["f".to_string(), "i".to_string(), "s".to_string(), "b".to_string()],
    );
    let sample = obj(vec![("f", num_f(1.5)), ("i", num_i(42)), ("s", s("hello")), ("b", JsonValue::Bool(true))]);
    let (tags, fields) = mapper.map_sample(&sample);
    assert!(tags.is_empty());
    assert_eq!(fields.len(), 4);
    assert!((float_of(&fields[0].1) - 1.5).abs() < f64::EPSILON);
    match &fields[1].1 {
        FieldValue::Integer(v) => assert_eq!(*v, 42),
        other => panic!("expected Integer, got {:?}", other),
    }
    match &fields[2].1 {
        FieldValue::String(v) => assert_eq!(v, "hello"),
        other => panic!("expected String, got {:?}", other),
    }
    match &fields[3].1 {
        FieldValue::Boolean(v) => assert!(*v),
        other => panic!("expected Boolean, got {:?}", other),
    }
}

#[test]
fn test_map_sample_null_and_objects_skipped() {
    let mapper = FieldMapper::new(
        vec!["null_tag".to_string(), "obj_tag".to_string()],
        vec!["null_field".to_string(), "arr_field".to_string()],
    );
    let sample = obj(vec![
        ("null_tag", JsonValue::Null),
        ("obj_tag", obj(vec![("nested", JsonValue::Bool(true))])),
        ("null_field", JsonValue::Null),
        ("arr_field", JsonValue::Array(vec![num_i(1), num_i(2), num_i(3)])),
    ]);
    let (tags, fields) = mapper.map_sample(&sample);
    assert!(tags.is_empty());
    assert!(fields.is_empty());
}

#[test]
fn numbers_as_tags_and_empty_path_parts() {
    let mapper = FieldMapper::new(vec!["n".to_string(), "a..b".to_string()], vec![]);
    let sample = obj(vec![("n", num_i(-7)), ("a", obj(vec![("", obj(vec![("b", s("x"))]))]))]);
    let (tags, _) = mapper.map_sample(&sample);
    assert_eq!(tags.len(), 2);
    assert_eq!(tags[0].1, "-7");
    assert_eq!(tags[1].1, "x");
}

// ---- sink ----

fn test_config() -> SinkConfig {
    SinkConfig {
        influxdb: InfluxDbConfig {
            url: "http://localhost:8086".to_string(),
            org: "test".to_string(),
            bucket: "test".to_string(),
            token: "test-token".to_string(),
        },
        sinks: vec![TopicSinkConfig {
            topic: "Temperature".to_string(),
            measurement: "temperature".to_string(),
            tags: vec!["sensor_id".to_string()],
            fields: vec!["value".to_string()],
            sample_rate: None,
            batch_size: Some(100),
            flush_interval_ms: Some(1000),
        }],
    }
}

fn test_config_with_rate_limit() -> SinkConfig {
    SinkConfig {
        influxdb: InfluxDbConfig {
            url: "http://localhost:8086".to_string(),
            org: "test".to_string(),
            bucket: "test".to_string(),
            token: "test-token".to_string(),
        },
        sinks: vec![TopicSinkConfig {
            topic: "FastSensor".to_string(),
            measurement: "fast_sensor".to_string(),
            tags: vec!["id".to_string()],
            fields: vec!["value".to_string()],
            sample_rate: Some(10),
            batch_size: Some(100),
            flush_interval_ms: Some(1000),
        }],
    }
}

#[test]
fn test_dds_sink_record_and_flush_roundtrip() {
    let mut sink = DdsSink::from_config(test_config());
    let sample = obj(vec![("sensor_id", s("S1")), ("value", num_f(22.5))]);
    sink.record_sample("Temperature", &sample, 1_000_000_000).expect("record");
    assert_eq!(sink.samples_recorded(), 1);
    assert_eq!(sink.samples_dropped(), 0);
    let lines = sink.flush_all();
    assert_eq!(lines.len(), 1);
    assert_eq!(lines[0], "temperature,sensor_id=S1 value=22.5 1000000000");
}

#[test]
fn test_dds_sink_downsample_respects_rate() {
    let mut sink = DdsSink::from_config(test_config_with_rate_limit());
    let sample = obj(vec![("id", s("fast1")), ("value", num_f(1.0))]);
    let base_ns: u64 = 1_000_000_000;
    let interval_ns: u64 = 50_000_000;
    for i in 0..10 {
        let ts = base_ns + i * interval_ns;
        let _ = sink.record_sample("FastSensor", &sample, ts);
    }
    assert_eq!(sink.samples_recorded(), 5);
    assert_eq!(sink.samples_dropped(), 5);
    let lines = sink.flush_all();
    assert_eq!(lines.len(), 5);
}

#[test]
fn test_dds_sink_unknown_topic() {
    let mut sink = DdsSink::from_config(test_config());
    let sample = obj(vec![("value", num_f(1.0))]);
    let result = sink.record_sample("NonExistent", &sample, 1);
    assert!(result.is_err());
    match result.unwrap_err() {
        SinkError::UnknownTopic(t) => assert_eq!(t, "NonExistent"),
        other => panic!("expected UnknownTopic, got: {:?}", other),
    }
}

#[test]
fn test_dds_sink_no_fields_error() {
    let mut sink = DdsSink::from_config(test_config());
    let sample = obj(vec![("sensor_id", s("S1")), ("wrong_field", num_i(42))]);
    let result = sink.record_sample("Temperature", &sample, 1);
    assert!(result.is_err());
    match result.unwrap_err() {
        SinkError::NoFields(t) => assert_eq!(t, "Temperature"),
        other => panic!("expected NoFields, got: {:?}", other),
    }
}

#[test]
fn test_dds_sink_multiple_samples() {
    let mut sink = DdsSink::from_config(test_config());
    for i in 0..5 {
        let sample = obj(vec![("sensor_id", s(&format!("S{}", i))), ("value", num_f(i as f64 * 10.0))]);
        sink.record_sample("Temperature", &sample, (i + 1) as u64 * 1_000_000_000).expect("record");
    }
    assert_eq!(sink.samples_recorded(), 5);
    let lines = sink.flush_all();
    assert_eq!(lines.len(), 5);
    assert!(lines[0].starts_with("temperature,sensor_id=S0 value=0"));
    assert!(lines[4].starts_with("temperature,sensor_id=S4 value=40"));
}

#[test]
fn full_batches_are_kept_until_flushed() {
    let mut config = test_config();
    config.sinks[0].batch_size = Some(2);
    let mut sink = DdsSink::from_config(config);
    let sample = obj(vec![("sensor_id", s("S1")), ("value", num_i(1))]);
    sink.record_sample("Temperature", &sample, 1).unwrap();
    sink.record_sample("Temperature", &sample, 2).unwrap();
    sink.record_sample("Temperature", &sample, 3).unwrap();
    assert_eq!(sink.samples_recorded(), 3);
    let lines = sink.flush_all();
    assert_eq!(
        lines,
        vec![
            "temperature,sensor_id=S1 value=1i 1".to_string(),
            "temperature,sensor_id=S1 value=1i 2".to_string(),
            "temperature,sensor_id=S1 value=1i 3".to_string(),
        ]
    );
    assert!(sink.flush_all().is_empty());
}

#[test]
fn sink_error_messages() {
    assert_eq!(SinkError::UnknownTopic("T".to_string()).message(), "no sink configured for topic: T");
    assert_eq!(SinkError::NoFields("T".to_string()).message(), "sample from topic 'T' produced no fields");
}

#[test]
fn later_config_of_a_topic_sets_its_mapper() {
    let mut config = test_config();
    let mut second = config.sinks[0].clone();
    second.measurement = "other".to_string();
    second.fields = vec!["v2".to_string()];
    config.sinks.push(second);
    let mut sink = DdsSink::from_config(config);
    let sample = obj(vec![("sensor_id", s("S1")), ("v2", num_i(3))]);
    sink.record_sample("Temperature", &sample, 9).unwrap();
    assert_eq!(sink.flush_all(), vec!["temperature,sensor_id=S1 v2=3i 9".to_string()]);
}
