//! Specialised CDR codecs for the ROS 2 messages that take the fast path:
//! `std_msgs/String`, `rcl_interfaces/Log` and `rcl_interfaces/ParameterEvent`.
//!
//! Each message is held here as plain Rust data; strings are byte strings
//! without their terminator, and `float64` values are held by their IEEE-754
//! bit patterns.
use vstd::prelude::*;
use crate::cdr::{
    ApiError, BytePayload, CdrCursor, CdrWriter, DeserializeError, SerializeError, is_prefix,
    lemma_i32_roundtrip, lemma_read_align, lemma_read_bytes, lemma_read_u32, lemma_read_u8,
    map_deserialize_error, map_serialize_error, sp_align, sp_bytes, sp_u32, sp_u8,
    spec_map_deserialize_error, spec_map_serialize_error, w_align, w_u32, w_u8, le4, zeros,
    writer_padding, lemma_align_facts, lemma_prefix_append,
};

verus! {

/// Which specialised codec a topic uses.
#[derive(Copy, Clone, Debug, PartialEq, Eq)]
pub enum Ros2CodecKind {
    NoCodec,
    String,
    Log,
    ParameterEvent,
}

impl Ros2CodecKind {
    /// The codec with wire number `value` (0 to 3).
    pub fn try_from(value: u8) -> (r: Option<Self>)
        ensures
            value == 0 <==> r == Some(Ros2CodecKind::NoCodec),
            value == 1 <==> r == Some(Ros2CodecKind::String),
            value == 2 <==> r == Some(Ros2CodecKind::Log),
            value == 3 <==> r == Some(Ros2CodecKind::ParameterEvent),
            value > 3 <==> r is None,
    {
        match value {
            0 => Some(Ros2CodecKind::NoCodec),
            1 => Some(Ros2CodecKind::String),
            2 => Some(Ros2CodecKind::Log),
            3 => Some(Ros2CodecKind::ParameterEvent),
            _ => None,
        }
    }
}

/// `builtin_interfaces/Time`.
#[derive(Copy, Clone, Debug, PartialEq, Eq)]
pub struct BuiltinTime {
    pub sec: i32,
    pub nanosec: u32,
}

// ---------------------------------------------------------------------------
// Strings

/// The reason given for a string whose terminator is not zero.
pub open spec fn missing_terminator() -> DeserializeError {
    DeserializeError::UnsupportedType("string missing null terminator")
}

/// A CDR string: aligned length (content plus terminator), content, zero.
#[verifier::opaque]
pub open spec fn w_cdr_string(b: Seq<u8>, s: Seq<u8>) -> Seq<u8> {
    w_u8(w_u32(w_align(b, 4), (s.len() + 1) as u32) + s, 0)
}

pub open spec fn cdr_string_fits(s: Seq<u8>) -> bool {
    s.len() + 1 <= u32::MAX
}

#[verifier::opaque]
pub open spec fn sp_cdr_string(d: Seq<u8>, p: int) -> Result<(Seq<u8>, int), DeserializeError> {
    match sp_align(d, p, 4) {
        Err(e) => Err(e),
        Ok(p1) => match sp_u32(d, p1) {
            Err(e) => Err(e),
            Ok((total, p2)) => if total == 0 {
                Ok((Seq::empty(), p2))
            } else {
                match sp_bytes(d, p2, total - 1) {
                    Err(e) => Err(e),
                    Ok((s, p3)) => match sp_u8(d, p3) {
                        Err(e) => Err(e),
                        Ok((t, p4)) => if t != 0 {
                            Err(missing_terminator())
                        } else {
                            Ok((s, p4))
                        },
                    },
                }
            },
        },
    }
}

pub fn write_cdr_string(writer: &mut CdrWriter, data: &[u8]) -> (r: Result<(), SerializeError>)
    ensures
        r is Ok <==> cdr_string_fits(data@),
        r is Err ==> r == Err::<(), SerializeError>(SerializeError::BufferOverflow),
        r is Ok ==> final(writer)@ == w_cdr_string(old(writer)@, data@),
{
    proof {
        reveal(w_cdr_string);
    }
    writer.align(4);
    if data.len() >= u32::MAX as usize {
        return Err(SerializeError::BufferOverflow);
    }
    let len = (data.len() + 1) as u32;
    writer.write_u32(len);
    writer.write_bytes(data);
    writer.write_u8(0);
    Ok(())
}

pub fn read_cdr_string(cursor: &mut CdrCursor) -> (r: Result<Vec<u8>, DeserializeError>)
    ensures
        final(cursor).bytes() == old(cursor).bytes(),
        match sp_cdr_string(old(cursor).bytes(), old(cursor).pos()) {
            Ok((s, q)) => r is Ok && r->Ok_0@ == s && final(cursor).pos() == q,
            Err(e) => r == Err::<Vec<u8>, DeserializeError>(e),
        },
{
    proof {
        reveal(sp_cdr_string);
    }
    cursor.align(4)?;
    let total = cursor.read_u32()?;
    if total == 0 {
        return Ok(Vec::new());
    }
    let len = (total - 1) as usize;
    let bytes = cursor.read_bytes(len)?;
    let terminator = cursor.read_u8()?;
    if terminator != 0 {
        return Err(DeserializeError::UnsupportedType("string missing null terminator"));
    }
    Ok(vstd::slice::slice_to_vec(bytes))
}

pub proof fn lemma_read_cdr_string(b: Seq<u8>, s: Seq<u8>, d: Seq<u8>)
    requires
        is_prefix(w_cdr_string(b, s), d),
        cdr_string_fits(s),
        d.len() + 8 <= usize::MAX,
    ensures
        sp_cdr_string(d, b.len() as int) == Ok::<(Seq<u8>, int), DeserializeError>(
            (s, w_cdr_string(b, s).len() as int),
        ),
        is_prefix(b, d),
{
    reveal(w_cdr_string);
    reveal(sp_cdr_string);
    let b1 = w_align(b, 4);
    let b2 = w_u32(b1, (s.len() + 1) as u32);
    let b3 = b2 + s;
    lemma_read_u8(b3, 0, d);
    lemma_read_bytes(b2, s, d);
    lemma_read_u32(b1, (s.len() + 1) as u32, d);
    lemma_read_align(b, 4, d);
}

// ---------------------------------------------------------------------------
// Where a CDR string stands in the bytes

/// The first multiple of 4 at or after `p`.
pub open spec fn align4(p: int) -> int {
    ((p + 3) / 4) * 4
}

/// `d` holds, from offset `p`, zero bytes up to the next multiple of 4 and
/// then the CDR string of `s`: its length with the terminator (4 bytes,
/// little-endian), the bytes of `s`, and a zero byte.
pub open spec fn holds_cdr_text(d: Seq<u8>, p: int, s: Seq<u8>) -> bool {
    let q = align4(p);
    &&& 0 <= p
    &&& q + 5 + s.len() <= d.len()
    &&& d.subrange(p, q) == zeros((q - p) as nat)
    &&& d.subrange(q, q + 4) == le4((s.len() + 1) as u32)
    &&& d.subrange(q + 4, q + 4 + s.len()) == s
    &&& d[q + 4 + s.len()] == 0
}

/// Where the CDR string of `s` written from offset `p` ends.
pub open spec fn cdr_text_end(p: int, s: Seq<u8>) -> int {
    align4(p) + 5 + s.len()
}

proof fn lemma_align4_padding(b: Seq<u8>)
    requires
        b.len() + 16 <= usize::MAX,
    ensures
        w_align(b, 4).len() == align4(b.len() as int),
        w_align(b, 4) == b + zeros((align4(b.len() as int) - b.len()) as nat),
{
    lemma_align_facts(b.len() as usize, 4);
    let pad = writer_padding(b.len() as usize, 4);
    assert(align4(b.len() as int) == b.len() + pad);
}

/// The bytes that writing a CDR string appends.
pub proof fn lemma_cdr_string_bytes(b: Seq<u8>, s: Seq<u8>, d: Seq<u8>)
    requires
        is_prefix(w_cdr_string(b, s), d),
        cdr_string_fits(s),
        d.len() + 16 <= usize::MAX,
    ensures
        holds_cdr_text(d, b.len() as int, s),
        w_cdr_string(b, s).len() == cdr_text_end(b.len() as int, s),
        is_prefix(b, d),
{
    reveal(w_cdr_string);
    lemma_align4_padding(b);
    let q = align4(b.len() as int);
    let b1 = w_align(b, 4);
    let b2 = w_u32(b1, (s.len() + 1) as u32);
    let b3 = b2 + s;
    assert(w_cdr_string(b, s) =~= b3 + seq![0u8]);
    lemma_prefix_append(b3, seq![0u8], d);
    lemma_prefix_append(b2, s, d);
    lemma_prefix_append(b1, le4((s.len() + 1) as u32), d);
    lemma_prefix_append(b, zeros((q - b.len()) as nat), d);
    assert(d.subrange(b3.len() as int, b3.len() + 1int)[0] == d[b3.len() as int]);
}

// ---------------------------------------------------------------------------
// Time

#[verifier::opaque]
pub open spec fn w_time(b: Seq<u8>, t: BuiltinTime) -> Seq<u8> {
    w_u32(w_u32(w_align(b, 4), t.sec as u32), t.nanosec)
}

#[verifier::opaque]
pub open spec fn sp_time(d: Seq<u8>, p: int) -> Result<(BuiltinTime, int), DeserializeError> {
    match sp_align(d, p, 4) {
        Err(e) => Err(e),
        Ok(p1) => match sp_u32(d, p1) {
            Err(e) => Err(e),
            Ok((sec, p2)) => match sp_u32(d, p2) {
                Err(e) => Err(e),
                Ok((nanosec, p3)) => Ok((BuiltinTime { sec: sec as i32, nanosec }, p3)),
            },
        },
    }
}

pub fn write_time(writer: &mut CdrWriter, stamp: &BuiltinTime) -> (r: Result<(), SerializeError>)
    ensures
        r is Ok,
        final(writer)@ == w_time(old(writer)@, *stamp),
{
    proof {
        reveal(w_time);
    }
    writer.align(4);
    writer.write_i32(stamp.sec);
    writer.write_u32(stamp.nanosec);
    Ok(())
}

pub fn read_time(cursor: &mut CdrCursor, stamp: &mut BuiltinTime) -> (r: Result<
    (),
    DeserializeError,
>)
    ensures
        final(cursor).bytes() == old(cursor).bytes(),
        match sp_time(old(cursor).bytes(), old(cursor).pos()) {
            Ok((t, q)) => r is Ok && *final(stamp) == t && final(cursor).pos() == q,
            Err(e) => r == Err::<(), DeserializeError>(e),
        },
{
    proof {
        reveal(sp_time);
    }
    cursor.align(4)?;
    let sec = cursor.read_i32()?;
    let nanosec = cursor.read_u32()?;
    stamp.sec = sec;
    stamp.nanosec = nanosec;
    Ok(())
}

pub proof fn lemma_read_time(b: Seq<u8>, t: BuiltinTime, d: Seq<u8>)
    requires
        is_prefix(w_time(b, t), d),
        d.len() + 8 <= usize::MAX,
    ensures
        sp_time(d, b.len() as int) == Ok::<(BuiltinTime, int), DeserializeError>(
            (t, w_time(b, t).len() as int),
        ),
        is_prefix(b, d),
{
    reveal(w_time);
    reveal(sp_time);
    let b1 = w_align(b, 4);
    let b2 = w_u32(b1, t.sec as u32);
    lemma_read_u32(b2, t.nanosec, d);
    lemma_read_u32(b1, t.sec as u32, d);
    lemma_read_align(b, 4, d);
    lemma_i32_roundtrip(t.sec);
}

// ---------------------------------------------------------------------------
// std_msgs/String

/// `std_msgs/String`.
pub struct StdMsgsString {
    pub data: Vec<u8>,
}

pub open spec fn spec_encode_string_message(s: Seq<u8>) -> Result<Seq<u8>, SerializeError> {
    if cdr_string_fits(s) {
        Ok(w_cdr_string(Seq::empty(), s))
    } else {
        Err(SerializeError::BufferOverflow)
    }
}

pub open spec fn spec_decode_string_message(d: Seq<u8>) -> Result<Seq<u8>, DeserializeError> {
    match sp_cdr_string(d, 0) {
        Ok((s, _)) => Ok(s),
        Err(e) => Err(e),
    }
}

pub fn encode_string_message(msg: &StdMsgsString) -> (r: Result<BytePayload, ApiError>)
    ensures
        match spec_encode_string_message(msg.data@) {
            Ok(d) => r is Ok && r->Ok_0.data@ == d,
            Err(e) => r == Err::<BytePayload, ApiError>(spec_map_serialize_error(e)),
        },
{
    let mut writer = CdrWriter::new();
    match write_cdr_string(&mut writer, msg.data.as_slice()) {
        Ok(()) => {},
        Err(e) => {
            return Err(map_serialize_error(e));
        },
    }
    Ok(writer.into_payload())
}

/// A string written after any bytes reads back as itself from where the
/// writer started, and the reader ends where the writer did.
pub proof fn law_cdr_string_roundtrip(b: Seq<u8>, s: Seq<u8>)
    requires
        cdr_string_fits(s),
        w_cdr_string(b, s).len() + 8 <= usize::MAX,
    ensures
        sp_cdr_string(w_cdr_string(b, s), b.len() as int) == Ok::<(Seq<u8>, int), DeserializeError>(
            (s, w_cdr_string(b, s).len() as int),
        ),
{
    let d = w_cdr_string(b, s);
    assert(d.subrange(0, d.len() as int) =~= d);
    lemma_read_cdr_string(b, s, d);
}

pub fn decode_string_message(data: &[u8]) -> (r: Result<StdMsgsString, ApiError>)
    ensures
        match spec_decode_string_message(data@) {
            Ok(s) => r is Ok && r->Ok_0.data@ == s,
            Err(e) => r == Err::<StdMsgsString, ApiError>(spec_map_deserialize_error(e)),
        },
{
    let mut cursor = CdrCursor::new(data);
    match read_cdr_string(&mut cursor) {
        Ok(bytes) => Ok(StdMsgsString { data: bytes }),
        Err(e) => Err(map_deserialize_error(e)),
    }
}

/// Decoding what was encoded gives back the string.
pub proof fn law_string_message_roundtrip(s: Seq<u8>)
    requires
        cdr_string_fits(s),
        w_cdr_string(Seq::empty(), s).len() + 8 <= usize::MAX,
    ensures
        spec_encode_string_message(s) is Ok,
        spec_decode_string_message(spec_encode_string_message(s)->Ok_0) == Ok::<
            Seq<u8>,
            DeserializeError,
        >(s),
{
    let d = w_cdr_string(Seq::empty(), s);
    assert(d.subrange(0, d.len() as int) =~= d);
    assert(Seq::<u8>::empty().len() == 0);
    lemma_read_cdr_string(Seq::empty(), s, d);
}

// ---------------------------------------------------------------------------
// rcl_interfaces/Log

/// `rcl_interfaces/Log`.
pub struct RclLog {
    pub stamp: BuiltinTime,
    pub level: u8,
    pub name: Vec<u8>,
    pub msg: Vec<u8>,
    pub file: Vec<u8>,
    pub function: Vec<u8>,
    pub line: u32,
}

/// The contents of an `RclLog`.
pub struct RclLogView {
    pub stamp: BuiltinTime,
    pub level: u8,
    pub name: Seq<u8>,
    pub msg: Seq<u8>,
    pub file: Seq<u8>,
    pub function: Seq<u8>,
    pub line: u32,
}

impl View for RclLog {
    type V = RclLogView;

    open spec fn view(&self) -> RclLogView {
        RclLogView {
            stamp: self.stamp,
            level: self.level,
            name: self.name@,
            msg: self.msg@,
            file: self.file@,
            function: self.function@,
            line: self.line,
        }
    }
}

pub open spec fn log_fits(m: RclLogView) -> bool {
    cdr_string_fits(m.name) && cdr_string_fits(m.msg) && cdr_string_fits(m.file)
        && cdr_string_fits(m.function)
}

/// The bytes of a log message: stamp, level, name, msg, file, function, line.
pub open spec fn w_log(m: RclLogView) -> Seq<u8> {
    let b1 = w_time(Seq::empty(), m.stamp);
    let b2 = w_u8(b1, m.level);
    let b3 = w_cdr_string(b2, m.name);
    let b4 = w_cdr_string(b3, m.msg);
    let b5 = w_cdr_string(b4, m.file);
    let b6 = w_cdr_string(b5, m.function);
    w_u32(w_align(b6, 4), m.line)
}

pub open spec fn spec_encode_log(m: RclLogView) -> Result<Seq<u8>, SerializeError> {
    if log_fits(m) {
        Ok(w_log(m))
    } else {
        Err(SerializeError::BufferOverflow)
    }
}

pub open spec fn spec_decode_log(d: Seq<u8>) -> Result<RclLogView, DeserializeError> {
    match sp_time(d, 0) {
        Err(e) => Err(e),
        Ok((stamp, p1)) => match sp_u8(d, p1) {
            Err(e) => Err(e),
            Ok((level, p2)) => match sp_cdr_string(d, p2) {
                Err(e) => Err(e),
                Ok((name, p3)) => match sp_cdr_string(d, p3) {
                    Err(e) => Err(e),
                    Ok((msg, p4)) => match sp_cdr_string(d, p4) {
                        Err(e) => Err(e),
                        Ok((file, p5)) => match sp_cdr_string(d, p5) {
                            Err(e) => Err(e),
                            Ok((function, p6)) => match sp_align(d, p6, 4) {
                                Err(e) => Err(e),
                                Ok(p7) => match sp_u32(d, p7) {
                                    Err(e) => Err(e),
                                    Ok((line, _)) => Ok(
                                        RclLogView { stamp, level, name, msg, file, function, line },
                                    ),
                                },
                            },
                        },
                    },
                },
            },
        },
    }
}

pub fn encode_log_message(msg: &RclLog) -> (r: Result<BytePayload, ApiError>)
    ensures
        match spec_encode_log(msg@) {
            Ok(d) => r is Ok && r->Ok_0.data@ == d,
            Err(e) => r == Err::<BytePayload, ApiError>(spec_map_serialize_error(e)),
        },
{
    let mut writer = CdrWriter::new();
    let _ = write_time(&mut writer, &msg.stamp);
    writer.write_u8(msg.level);
    if let Err(e) = write_cdr_string(&mut writer, msg.name.as_slice()) {
        return Err(map_serialize_error(e));
    }
    if let Err(e) = write_cdr_string(&mut writer, msg.msg.as_slice()) {
        return Err(map_serialize_error(e));
    }
    if let Err(e) = write_cdr_string(&mut writer, msg.file.as_slice()) {
        return Err(map_serialize_error(e));
    }
    if let Err(e) = write_cdr_string(&mut writer, msg.function.as_slice()) {
        return Err(map_serialize_error(e));
    }
    writer.align(4);
    writer.write_u32(msg.line);
    Ok(writer.into_payload())
}

pub fn decode_log_message(data: &[u8]) -> (r: Result<RclLog, ApiError>)
    ensures
        match spec_decode_log(data@) {
            Ok(m) => r is Ok && r->Ok_0@ == m,
            Err(e) => r == Err::<RclLog, ApiError>(spec_map_deserialize_error(e)),
        },
{
    let mut cursor = CdrCursor::new(data);
    let mut stamp = BuiltinTime { sec: 0, nanosec: 0 };
    if let Err(e) = read_time(&mut cursor, &mut stamp) {
        return Err(map_deserialize_error(e));
    }
    let level = match cursor.read_u8() {
        Ok(v) => v,
        Err(e) => {
            return Err(map_deserialize_error(e));
        },
    };
    let name = match read_cdr_string(&mut cursor) {
        Ok(v) => v,
        Err(e) => {
            return Err(map_deserialize_error(e));
        },
    };
    let msg = match read_cdr_string(&mut cursor) {
        Ok(v) => v,
        Err(e) => {
            return Err(map_deserialize_error(e));
        },
    };
    let file = match read_cdr_string(&mut cursor) {
        Ok(v) => v,
        Err(e) => {
            return Err(map_deserialize_error(e));
        },
    };
    let function = match read_cdr_string(&mut cursor) {
        Ok(v) => v,
        Err(e) => {
            return Err(map_deserialize_error(e));
        },
    };
    if let Err(e) = cursor.align(4) {
        return Err(map_deserialize_error(e));
    }
    let line = match cursor.read_u32() {
        Ok(v) => v,
        Err(e) => {
            return Err(map_deserialize_error(e));
        },
    };
    Ok(RclLog { stamp, level, name, msg, file, function, line })
}

/// Decoding an encoded log message gives back the message.
#[verifier::rlimit(40)]
pub proof fn law_log_roundtrip(m: RclLogView)
    requires
        log_fits(m),
        w_log(m).len() + 8 <= usize::MAX,
    ensures
        spec_encode_log(m) is Ok,
        spec_decode_log(spec_encode_log(m)->Ok_0) == Ok::<RclLogView, DeserializeError>(m),
{
    let d = w_log(m);
    let b1 = w_time(Seq::empty(), m.stamp);
    let b2 = w_u8(b1, m.level);
    let b3 = w_cdr_string(b2, m.name);
    let b4 = w_cdr_string(b3, m.msg);
    let b5 = w_cdr_string(b4, m.file);
    let b6 = w_cdr_string(b5, m.function);
    let b7 = w_align(b6, 4);
    assert(d.subrange(0, d.len() as int) =~= d);
    lemma_read_u32(b7, m.line, d);
    lemma_read_align(b6, 4, d);
    lemma_read_cdr_string(b5, m.function, d);
    lemma_read_cdr_string(b4, m.file, d);
    lemma_read_cdr_string(b3, m.msg, d);
    lemma_read_cdr_string(b2, m.name, d);
    lemma_read_u8(b1, m.level, d);
    lemma_read_time(Seq::empty(), m.stamp, d);
    assert(Seq::<u8>::empty().len() == 0);
    let r1 = sp_time(d, 0);
    assert(r1 == Ok::<(BuiltinTime, int), DeserializeError>((m.stamp, b1.len() as int)));
    assert(sp_u8(d, b1.len() as int) == Ok::<(u8, int), DeserializeError>(
        (m.level, b2.len() as int),
    ));
    assert(sp_cdr_string(d, b2.len() as int) == Ok::<(Seq<u8>, int), DeserializeError>(
        (m.name, b3.len() as int),
    ));
    assert(sp_cdr_string(d, b3.len() as int) == Ok::<(Seq<u8>, int), DeserializeError>(
        (m.msg, b4.len() as int),
    ));
    assert(sp_cdr_string(d, b4.len() as int) == Ok::<(Seq<u8>, int), DeserializeError>(
        (m.file, b5.len() as int),
    ));
    assert(sp_cdr_string(d, b5.len() as int) == Ok::<(Seq<u8>, int), DeserializeError>(
        (m.function, b6.len() as int),
    ));
    assert(sp_align(d, b6.len() as int, 4) == Ok::<int, DeserializeError>(b7.len() as int));
}


pub proof fn lemma_time_bytes(t: BuiltinTime)
    ensures
        w_time(Seq::empty(), t) == le4(t.sec as u32) + le4(t.nanosec),
{
    reveal(w_time);
    lemma_align4_padding(Seq::<u8>::empty());
    assert(w_align(Seq::<u8>::empty(), 4) =~= Seq::<u8>::empty());
    assert(w_time(Seq::empty(), t) =~= le4(t.sec as u32) + le4(t.nanosec));
}

/// The bytes of an encoded `rcl_interfaces/Log` follow the ROS 2 wire
/// layout: the stamp's seconds and nanoseconds (4 bytes each,
/// little-endian), the level byte, then the CDR strings of the logger name,
/// the message text, the file and the function, in that order, each from
/// the next multiple of 4, and last the line number at the next multiple
/// of 4.
#[verifier::rlimit(40)]
pub proof fn law_log_wire_layout(m: RclLogView)
    requires
        log_fits(m),
        w_log(m).len() + 16 <= usize::MAX,
    ensures
        spec_encode_log(m) is Ok,
        ({
            let d = spec_encode_log(m)->Ok_0;
            let p_msg = cdr_text_end(9, m.name);
            let p_file = cdr_text_end(p_msg, m.msg);
            let p_function = cdr_text_end(p_file, m.file);
            let p_end = cdr_text_end(p_function, m.function);
            let p_line = align4(p_end);
            &&& d.subrange(0, 4) == le4(m.stamp.sec as u32)
            &&& d.subrange(4, 8) == le4(m.stamp.nanosec)
            &&& d[8] == m.level
            &&& holds_cdr_text(d, 9, m.name)
            &&& holds_cdr_text(d, p_msg, m.msg)
            &&& holds_cdr_text(d, p_file, m.file)
            &&& holds_cdr_text(d, p_function, m.function)
            &&& d.subrange(p_end, p_line) == zeros((p_line - p_end) as nat)
            &&& d.subrange(p_line, p_line + 4) == le4(m.line)
            &&& d.len() == p_line + 4
        }),
{
    let d = w_log(m);
    let b1 = w_time(Seq::empty(), m.stamp);
    let b2 = w_u8(b1, m.level);
    let b3 = w_cdr_string(b2, m.name);
    let b4 = w_cdr_string(b3, m.msg);
    let b5 = w_cdr_string(b4, m.file);
    let b6 = w_cdr_string(b5, m.function);
    let b7 = w_align(b6, 4);
    lemma_time_bytes(m.stamp);
    assert(d.subrange(0, d.len() as int) =~= d);
    lemma_prefix_append(b7, le4(m.line), d);
    lemma_align4_padding(b6);
    lemma_prefix_append(b6, zeros((align4(b6.len() as int) - b6.len()) as nat), d);
    lemma_cdr_string_bytes(b5, m.function, d);
    lemma_cdr_string_bytes(b4, m.file, d);
    lemma_cdr_string_bytes(b3, m.msg, d);
    lemma_cdr_string_bytes(b2, m.name, d);
    assert(b2 =~= b1 + seq![m.level]);
    lemma_prefix_append(b1, seq![m.level], d);
    lemma_prefix_append(le4(m.stamp.sec as u32), le4(m.stamp.nanosec), d);
    assert(d.subrange(8, 9)[0] == d[8]);
}


/// An encoded `std_msgs/String` is exactly one CDR string: the length of
/// the text plus its terminator (4 bytes, little-endian), the text, and a
/// zero byte.
pub proof fn law_string_message_wire_layout(s: Seq<u8>)
    requires
        cdr_string_fits(s),
        s.len() + 32 <= usize::MAX,
    ensures
        spec_encode_string_message(s) is Ok,
        spec_encode_string_message(s)->Ok_0 == le4((s.len() + 1) as u32) + s + seq![0u8],
{
    reveal(w_cdr_string);
    lemma_align4_padding(Seq::<u8>::empty());
    assert(w_align(Seq::<u8>::empty(), 4) =~= Seq::<u8>::empty());
    assert(w_cdr_string(Seq::empty(), s) =~= le4((s.len() + 1) as u32) + s + seq![0u8]);
}

} // verus!
