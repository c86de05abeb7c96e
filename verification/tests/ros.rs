use hdds_tools::ros_layout::{align_offset, primitive_size, topic_to_shm_guid};
use hdds_tools::cdr::{ApiError, CdrCursor, CdrWriter, DeserializeError, SerializeError};
use hdds_tools::ros_codec::{
    decode_log_message, decode_string_message, encode_log_message, encode_string_message,
    read_cdr_string, write_cdr_string, BuiltinTime, RclLog, Ros2CodecKind, StdMsgsString,
};
use hdds_tools::ros_introspection::{
    deserialize_message, deserialize_ros_message, deserialize_string, deserialize_wstring,
    serialize_message, serialize_ros_message, RosMember, RosValue, ROS_TYPE_INT32,
    ROS_TYPE_MESSAGE, ROS_TYPE_STRING, ROS_TYPE_UINT32, ROS_TYPE_UINT8, ROS_TYPE_WSTRING,
    ROS_TYPE_DOUBLE, ROS_TYPE_BOOLEAN, ROS_TYPE_WCHAR,
};
use hdds_tools::ros_params::{
    decode_parameter_event, encode_parameter_event, Parameter, ParameterEvent, ParameterValue,
};
use hdds_tools::ros_types::{
    copy_str_to_buf, field_descriptor, normalize_ros2_type, normalize_ros_type_name, ElementType, FieldDesc,
    FieldShape, HddsRpcExceptionCode, PrimitiveKind, RosidlError,
};

fn make_member(type_id: u8) -> RosMember {
    RosMember {
        type_id,
        is_array: false,
        array_size: 0,
        is_upper_bound: false,
        string_upper_bound: 0,
        has_size_function: true,
        has_get_function: true,
        has_resize_function: true,
        has_assign_function: false,
        nested: vec![],
    }
}

#[test]
fn test_normalize_type_name() {
    assert_eq!(normalize_ros2_type("std_msgs/msg/String"), "std_msgs/String");
    assert_eq!(normalize_ros2_type("geometry_msgs/msg/Point"), "geometry_msgs/Point");
    assert_eq!(normalize_ros2_type("std_msgs/String"), "std_msgs/String");
}

#[test]
fn test_exception_code_enum() {
    assert_eq!(HddsRpcExceptionCode::HddsRpcOk.code(), 0);
    assert_eq!(HddsRpcExceptionCode::HddsRpcTimeout.code(), 5);
    assert_eq!(HddsRpcExceptionCode::HddsRpcUnknown.code(), -1);
}

#[test]
fn deserialize_string_assigns_utf8_payload() {
    let data = [3, 0, 0, 0, b'a', b'b', 0];
    let mut cursor = CdrCursor::new(&data);
    let mut member = make_member(ROS_TYPE_STRING);
    member.string_upper_bound = 8;
    match deserialize_string(&mut cursor, &member).unwrap() {
        RosValue::Str(s) => assert_eq!(s, b"ab"),
        _ => panic!("expected a string"),
    }
}

#[test]
fn deserialize_string_respects_upper_bound() {
    let data = [3, 0, 0, 0, b'a', b'b', 0];
    let mut cursor = CdrCursor::new(&data);
    let mut member = make_member(ROS_TYPE_STRING);
    member.string_upper_bound = 1;
    let result = deserialize_string(&mut cursor, &member);
    assert!(matches!(result, Err(DeserializeError::LengthExceeded("string exceeds bound"))));
}

#[test]
fn deserialize_wstring_decodes_utf16_payload() {
    let data = [3, 0, 0, 0, 0x48, 0x00, 0x69, 0x00, 0x00, 0x00];
    let mut cursor = CdrCursor::new(&data);
    let mut member = make_member(ROS_TYPE_WSTRING);
    member.string_upper_bound = 8;
    match deserialize_wstring(&mut cursor, &member).unwrap() {
        RosValue::WStr(s) => assert_eq!(s, vec![0x0048, 0x0069]),
        _ => panic!("expected a wide string"),
    }
}

#[test]
fn deserialize_wstring_respects_upper_bound() {
    let data = [3, 0, 0, 0, 0x48, 0x00, 0x69, 0x00, 0x00, 0x00];
    let mut cursor = CdrCursor::new(&data);
    let mut member = make_member(ROS_TYPE_WSTRING);
    member.string_upper_bound = 1;
    let result = deserialize_wstring(&mut cursor, &member);
    assert!(matches!(result, Err(DeserializeError::LengthExceeded("wstring exceeds bound"))));
}

fn u32_sequence_member() -> RosMember {
    let mut m = make_member(ROS_TYPE_UINT32);
    m.is_array = true;
    m
}

#[test]
fn deserialize_u32_sequence_populates_elements() {
    let mut data = Vec::new();
    data.extend_from_slice(&3u32.to_le_bytes());
    data.extend_from_slice(&1u32.to_le_bytes());
    data.extend_from_slice(&2u32.to_le_bytes());
    data.extend_from_slice(&42u32.to_le_bytes());
    let members = vec![u32_sequence_member()];
    let values = deserialize_ros_message(&members, &data).unwrap().unwrap();
    match &values[0] {
        RosValue::Elements(es) => {
            let got: Vec<u32> = es.iter().map(|v| match v { RosValue::UInt32(x) => *x, _ => panic!() }).collect();
            assert_eq!(got, vec![1, 2, 42]);
        }
        _ => panic!("expected elements"),
    }
}

#[test]
fn deserialize_u32_sequence_respects_upper_bound() {
    let mut m = u32_sequence_member();
    m.is_upper_bound = true;
    m.array_size = 2;
    let mut data = Vec::new();
    data.extend_from_slice(&3u32.to_le_bytes());
    data.extend_from_slice(&1u32.to_le_bytes());
    data.extend_from_slice(&2u32.to_le_bytes());
    data.extend_from_slice(&42u32.to_le_bytes());
    let mut c = CdrCursor::new(&data);
    let r = deserialize_message(&mut c, &vec![m]);
    assert!(matches!(r, Err(DeserializeError::LengthExceeded("sequence exceeds bound"))));
}

#[test]
fn message_roundtrip_through_the_codec() {
    let mut nested = make_member(ROS_TYPE_MESSAGE);
    nested.nested = vec![make_member(ROS_TYPE_DOUBLE), make_member(ROS_TYPE_BOOLEAN)];
    let members = vec![
        make_member(ROS_TYPE_UINT8),
        make_member(ROS_TYPE_STRING),
        nested,
        make_member(ROS_TYPE_INT32),
    ];
    let values = vec![
        RosValue::Byte(7),
        RosValue::Str(b"hello".to_vec()),
        RosValue::Message(vec![RosValue::Double(2.5f64.to_bits()), RosValue::Bool(true)]),
        RosValue::Int32(-3),
    ];
    let payload = serialize_ros_message(&members, &values).unwrap();
    // byte 7, pad to 4, len 6 "hello\0", pad to 8 (after 16 -> 16), double, bool, pad, i32
    assert_eq!(&payload.data[0..4], &[7, 0, 0, 0]);
    assert_eq!(&payload.data[4..8], &6u32.to_le_bytes());
    let back = deserialize_ros_message(&members, &payload.data).unwrap().unwrap();
    match (&back[1], &back[2], &back[3]) {
        (RosValue::Str(s), RosValue::Message(fs), RosValue::Int32(x)) => {
            assert_eq!(s, b"hello");
            assert!(matches!(fs[0], RosValue::Double(b) if b == 2.5f64.to_bits()));
            assert!(matches!(fs[1], RosValue::Bool(true)));
            assert_eq!(*x, -3);
        }
        _ => panic!("unexpected values"),
    }
}

#[test]
fn serialize_reports_unsupported_and_mismatched_values() {
    let mut w = CdrWriter::new();
    let r = serialize_message(&mut w, &vec![make_member(99)], &vec![RosValue::Byte(1)]);
    assert!(matches!(r, Err(SerializeError::UnsupportedType("unsupported type id"))));
    assert_eq!(serialize_ros_message(&vec![make_member(99)], &vec![RosValue::Byte(1)]).err(), Some(ApiError::Unsupported));
    let mut bounded = make_member(ROS_TYPE_STRING);
    bounded.string_upper_bound = 2;
    assert_eq!(serialize_ros_message(&vec![bounded], &vec![RosValue::Str(b"abc".to_vec())]).err(), Some(ApiError::Unsupported));
    assert!(deserialize_ros_message(&vec![make_member(ROS_TYPE_UINT8)], &[]).unwrap().is_none());
}

#[test]
fn std_msgs_string_roundtrip() {
    let msg = StdMsgsString { data: b"hi there".to_vec() };
    let payload = encode_string_message(&msg).unwrap();
    assert_eq!(&payload.data[0..4], &9u32.to_le_bytes());
    let back = decode_string_message(&payload.data).unwrap();
    assert_eq!(back.data, b"hi there");
}

#[test]
fn rcl_log_roundtrip() {
    let msg = RclLog {
        stamp: BuiltinTime { sec: 10, nanosec: 20 },
        level: 30,
        name: b"node".to_vec(),
        msg: b"hello".to_vec(),
        file: b"f.cpp".to_vec(),
        function: b"main".to_vec(),
        line: 7,
    };
    let payload = encode_log_message(&msg).unwrap();
    let back = decode_log_message(&payload.data).unwrap();
    assert_eq!(back.stamp, BuiltinTime { sec: 10, nanosec: 20 });
    assert_eq!(back.level, 30);
    assert_eq!(back.msg, b"hello");
    assert_eq!(back.line, 7);
}

fn value(type_: u8) -> ParameterValue {
    ParameterValue {
        type_,
        bool_value: true,
        integer_value: -4,
        double_value_bits: 1.5f64.to_bits(),
        string_value: b"s".to_vec(),
        byte_array_value: vec![1, 2],
        bool_array_value: vec![true, false],
        integer_array_value: vec![5],
        double_array_value_bits: vec![0.25f64.to_bits()],
        string_array_value: vec![b"a".to_vec(), b"bc".to_vec()],
    }
}

#[test]
fn parameter_event_roundtrip() {
    let ev = ParameterEvent {
        stamp: BuiltinTime { sec: 1, nanosec: 2 },
        node: b"/talker".to_vec(),
        new_parameters: vec![Parameter { name: b"p".to_vec(), value: value(2) }],
        changed_parameters: vec![],
        deleted_parameters: vec![Parameter { name: b"q".to_vec(), value: value(9) }],
    };
    let payload = encode_parameter_event(&ev).unwrap();
    let back = decode_parameter_event(&payload.data).unwrap();
    assert_eq!(back.node, b"/talker");
    assert_eq!(back.new_parameters.len(), 1);
    assert_eq!(back.new_parameters[0].value.integer_value, -4);
    assert_eq!(back.deleted_parameters[0].value.string_array_value, vec![b"a".to_vec(), b"bc".to_vec()]);
}

#[test]
fn codec_kind_numbers() {
    assert_eq!(Ros2CodecKind::try_from(0), Some(Ros2CodecKind::NoCodec));
    assert_eq!(Ros2CodecKind::try_from(3), Some(Ros2CodecKind::ParameterEvent));
    assert_eq!(Ros2CodecKind::try_from(4), None);
}

#[test]
fn cpp_type_names_use_slashes() {
    assert_eq!(normalize_ros_type_name("std_msgs::msg::String"), "std_msgs/msg/String");
    assert_eq!(normalize_ros_type_name("std_msgs/msg/String"), "std_msgs/msg/String");
    assert_eq!(normalize_ros2_type("a/msg/msg/b"), "a/msg/b");
    assert_eq!(HddsRpcExceptionCode::from_code(6), Some(HddsRpcExceptionCode::HddsRpcInternalError));
    assert_eq!(HddsRpcExceptionCode::from_code(7), None);
}

#[test]
fn primitive_sizes_of_member_types() {
    assert_eq!(primitive_size(ROS_TYPE_INT32), Some(4));
    assert_eq!(primitive_size(6), Some(1));
    assert_eq!(primitive_size(5), Some(2));
    assert_eq!(primitive_size(2), Some(8));
    assert_eq!(primitive_size(3), Some(16));
    assert_eq!(primitive_size(16), None);
    assert_eq!(primitive_size(18), None);
}

#[test]
fn offsets_round_up_to_their_alignment() {
    assert_eq!(align_offset(5, 4), 8);
    assert_eq!(align_offset(8, 4), 8);
    assert_eq!(align_offset(9, 16), 16);
    assert_eq!(align_offset(7, 1), 7);
    assert_eq!(align_offset(7, 0), 7);
}

#[test]
fn shm_guid_is_the_spread_fnv_hash_of_the_topic() {
    assert_eq!(
        topic_to_shm_guid("rt/chatter"),
        [101, 213, 241, 118, 213, 71, 196, 185, 69, 87, 108, 27, 181, 243, 250, 128]
    );
    assert_eq!(
        topic_to_shm_guid(""),
        [197, 157, 28, 129, 53, 50, 174, 70, 165, 195, 142, 179, 21, 66, 161, 126]
    );
    assert_ne!(topic_to_shm_guid("rt/a"), topic_to_shm_guid("rt/b"));
}

#[test]
fn cdr_string_written_reads_back() {
    let mut w = CdrWriter::new();
    write_cdr_string(&mut w, b"ab").unwrap();
    let bytes = w.into_payload().data;
    assert_eq!(bytes, vec![3, 0, 0, 0, 97, 98, 0]);
    let mut c = CdrCursor::new(&bytes);
    assert_eq!(read_cdr_string(&mut c).unwrap(), b"ab".to_vec());
    assert_eq!(c.offset(), bytes.len());

    let mut w = CdrWriter::new();
    w.write_u8(9);
    write_cdr_string(&mut w, b"xyz").unwrap();
    let bytes = w.into_payload().data;
    let mut c = CdrCursor::new(&bytes);
    assert_eq!(c.read_u8().unwrap(), 9);
    assert_eq!(read_cdr_string(&mut c).unwrap(), b"xyz".to_vec());
    assert_eq!(c.offset(), bytes.len());
}

#[test]
fn test_copy_str_to_buf() {
    let mut buf = [0u8; 32];
    let needed = copy_str_to_buf("hello", &mut buf);
    assert_eq!(needed, 5);
    assert_eq!(&buf[..5], b"hello");
    assert_eq!(buf[5], 0);

    let mut small = [0u8; 4];
    let needed = copy_str_to_buf("hello", &mut small);
    assert_eq!(needed, 5);
    assert_eq!(&small[..3], b"hel");
    assert_eq!(small[3], 0);

    let mut none: [u8; 0] = [];
    assert_eq!(copy_str_to_buf("hello", &mut none), 5);
    let mut marked = [7u8; 8];
    assert_eq!(copy_str_to_buf("ab", &mut marked), 2);
    assert_eq!(marked, [b'a', b'b', 0, 7, 7, 7, 7, 7]);
}

#[test]
fn member_field_descriptors() {
    assert_eq!(
        field_descriptor(ROS_TYPE_STRING, false, 0, false, 10),
        Ok(FieldDesc {
            element: ElementType::Primitive(PrimitiveKind::String { max_length: Some(10) }),
            shape: FieldShape::Single,
        })
    );
    assert_eq!(
        field_descriptor(ROS_TYPE_STRING, false, 0, false, 0).unwrap().element,
        ElementType::Primitive(PrimitiveKind::String { max_length: None })
    );
    assert_eq!(
        field_descriptor(ROS_TYPE_WCHAR, false, 0, false, 0).unwrap().element,
        ElementType::Primitive(PrimitiveKind::U16)
    );
    assert_eq!(field_descriptor(ROS_TYPE_MESSAGE, false, 0, false, 0).unwrap().element, ElementType::Message);
    assert_eq!(field_descriptor(ROS_TYPE_INT32, true, 0, true, 0).unwrap().shape, FieldShape::UnboundedSequence);
    assert_eq!(field_descriptor(ROS_TYPE_INT32, true, 5, true, 0).unwrap().shape, FieldShape::BoundedSequence(5));
    assert_eq!(field_descriptor(ROS_TYPE_INT32, true, 3, false, 0).unwrap().shape, FieldShape::Array(3));
    assert_eq!(field_descriptor(ROS_TYPE_INT32, true, 0, false, 0).unwrap().shape, FieldShape::UnboundedSequence);
    assert_eq!(field_descriptor(ROS_TYPE_INT32, false, 7, true, 0).unwrap().shape, FieldShape::Single);
    assert_eq!(field_descriptor(99, false, 0, false, 0), Err(RosidlError::UnsupportedType(99)));
}
