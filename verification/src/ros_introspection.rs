//! CDR encoding and decoding of ROS 2 messages driven by type-support
//! introspection: each member of a message type has a type id, may be a
//! fixed array or a (bounded) sequence, and may be a nested message.
//! Values are held in a tree that mirrors the members; floats travel as
//! their bit patterns.
use vstd::prelude::*;
use crate::cdr::{
    CdrWriter, CdrCursor, DeserializeError, SerializeError, le2, w_align, w_u8, w_u32, w_u64,
    le4, le8, zeros, writer_padding, sp_align, sp_u8, sp_u32, sp_u64, sp_bytes, from_le2,
    cursor_aligned, BytePayload, ApiError, map_serialize_error, spec_map_serialize_error,
    map_deserialize_error, spec_map_deserialize_error, is_prefix, lemma_prefix_trans,
    lemma_prefix_append, lemma_read_align_any, lemma_align_idem, lemma_read_u8, lemma_read_u32,
    lemma_read_u64, lemma_read_bytes, lemma_le2_roundtrip, lemma_i16_roundtrip,
    lemma_i32_roundtrip, lemma_i64_roundtrip,
};

verus! {

pub const ROS_TYPE_FLOAT: u8 = 1;
pub const ROS_TYPE_DOUBLE: u8 = 2;
pub const ROS_TYPE_LONG_DOUBLE: u8 = 3;
pub const ROS_TYPE_CHAR: u8 = 4;
pub const ROS_TYPE_WCHAR: u8 = 5;
pub const ROS_TYPE_BOOLEAN: u8 = 6;
pub const ROS_TYPE_OCTET: u8 = 7;
pub const ROS_TYPE_UINT8: u8 = 8;
pub const ROS_TYPE_INT8: u8 = 9;
pub const ROS_TYPE_UINT16: u8 = 10;
pub const ROS_TYPE_INT16: u8 = 11;
pub const ROS_TYPE_UINT32: u8 = 12;
pub const ROS_TYPE_INT32: u8 = 13;
pub const ROS_TYPE_UINT64: u8 = 14;
pub const ROS_TYPE_INT64: u8 = 15;
pub const ROS_TYPE_STRING: u8 = 16;
pub const ROS_TYPE_WSTRING: u8 = 17;
pub const ROS_TYPE_MESSAGE: u8 = 18;

/// Size of a `long double` outside Windows.
pub const LONG_DOUBLE_SIZE: usize = 16;

/// Alignment of a `long double` outside Windows.
pub const LONG_DOUBLE_ALIGN: usize = 16;

/// A member of a message type, as type-support introspection describes it.
pub struct RosMember {
    pub type_id: u8,
    pub is_array: bool,
    pub array_size: usize,
    pub is_upper_bound: bool,
    /// Bound on string length; 0 for none.
    pub string_upper_bound: usize,
    /// Whether the member has a size accessor (sequences).
    pub has_size_function: bool,
    /// Whether the member has an element accessor.
    pub has_get_function: bool,
    /// Whether the member has a resize accessor (sequences).
    pub has_resize_function: bool,
    /// Whether the member has an element-assign accessor (sequences).
    pub has_assign_function: bool,
    /// The members of the nested message type (type id `ROS_TYPE_MESSAGE`).
    pub nested: Vec<RosMember>,
}

/// A value of a member.
pub enum RosValue {
    /// `float32`, by its bits.
    Float(u32),
    /// `float64`, by its bits.
    Double(u64),
    /// `long double`, by its bytes.
    LongDouble(Vec<u8>),
    /// `char`, `octet`, `uint8`.
    Byte(u8),
    Int8(i8),
    Bool(bool),
    /// `uint16`, `wchar`.
    UInt16(u16),
    Int16(i16),
    UInt32(u32),
    Int32(i32),
    UInt64(u64),
    Int64(i64),
    /// A string, by its bytes.
    Str(Vec<u8>),
    /// A wide string, by its UTF-16 units.
    WStr(Vec<u16>),
    /// A nested message: one value per member.
    Message(Vec<RosValue>),
    /// The elements of an array or sequence member.
    Elements(Vec<RosValue>),
}

/// Whether a fixed array member holds `array_size` elements (else it is a
/// sequence).
pub open spec fn is_fixed_array(m: RosMember) -> bool {
    m.array_size > 0 && !m.is_upper_bound
}

/// The type ids whose element size is known.
pub open spec fn known_type(t: u8) -> bool {
    1 <= t <= 18
}

pub open spec fn mismatch() -> SerializeError {
    SerializeError::UnsupportedType("value does not match its member")
}

/// `b` followed by each unit's little-endian bytes.
pub open spec fn w_u16s(b: Seq<u8>, u: Seq<u16>) -> Seq<u8>
    decreases u.len(),
{
    if u.len() == 0 {
        b
    } else {
        w_u16s(b, u.drop_last()) + le2(u.last())
    }
}

/// A string: its length with the terminator, its bytes, a zero byte.
pub open spec fn ser_string(b: Seq<u8>, m: RosMember, s: Seq<u8>) -> Result<Seq<u8>, SerializeError> {
    if m.string_upper_bound > 0 && s.len() > m.string_upper_bound {
        Err(SerializeError::LengthExceeded("string exceeds bound"))
    } else if s.len() + 1 > u32::MAX {
        Err(SerializeError::BufferOverflow)
    } else {
        Ok(w_u8(w_u32(b, (s.len() + 1) as u32) + s, 0))
    }
}

/// A wide string: its length with the terminator, then 2-aligned units and
/// a zero unit.
pub open spec fn ser_wstring(b: Seq<u8>, m: RosMember, u: Seq<u16>) -> Result<Seq<u8>, SerializeError> {
    if m.string_upper_bound > 0 && u.len() > m.string_upper_bound {
        Err(SerializeError::LengthExceeded("wstring exceeds bound"))
    } else if u.len() + 1 > u32::MAX {
        Err(SerializeError::BufferOverflow)
    } else {
        Ok(w_u16s(w_align(w_u32(b, (u.len() + 1) as u32), 2), u) + le2(0))
    }
}

/// The encoding of one value of a member, appended to `b`.
pub open spec fn ser_value(b: Seq<u8>, m: RosMember, v: RosValue) -> Result<Seq<u8>, SerializeError>
    decreases v, 0int,
{
    let t = m.type_id;
    if t == ROS_TYPE_FLOAT {
        match v {
            RosValue::Float(x) => Ok(w_u32(w_align(b, 4), x)),
            _ => Err(mismatch()),
        }
    } else if t == ROS_TYPE_DOUBLE {
        match v {
            RosValue::Double(x) => Ok(w_u64(w_align(b, 8), x)),
            _ => Err(mismatch()),
        }
    } else if t == ROS_TYPE_LONG_DOUBLE {
        match v {
            RosValue::LongDouble(x) => if x@.len() == LONG_DOUBLE_SIZE {
                Ok(w_align(b, LONG_DOUBLE_ALIGN) + x@)
            } else {
                Err(mismatch())
            },
            _ => Err(mismatch()),
        }
    } else if t == ROS_TYPE_CHAR || t == ROS_TYPE_OCTET || t == ROS_TYPE_UINT8 {
        match v {
            RosValue::Byte(x) => Ok(w_u8(b, x)),
            _ => Err(mismatch()),
        }
    } else if t == ROS_TYPE_INT8 {
        match v {
            RosValue::Int8(x) => Ok(w_u8(b, x as u8)),
            _ => Err(mismatch()),
        }
    } else if t == ROS_TYPE_BOOLEAN {
        match v {
            RosValue::Bool(x) => Ok(w_u8(b, if x { 1u8 } else { 0u8 })),
            _ => Err(mismatch()),
        }
    } else if t == ROS_TYPE_UINT16 || t == ROS_TYPE_WCHAR {
        match v {
            RosValue::UInt16(x) => Ok(w_align(b, 2) + le2(x)),
            _ => Err(mismatch()),
        }
    } else if t == ROS_TYPE_INT16 {
        match v {
            RosValue::Int16(x) => Ok(w_align(b, 2) + le2(x as u16)),
            _ => Err(mismatch()),
        }
    } else if t == ROS_TYPE_UINT32 {
        match v {
            RosValue::UInt32(x) => Ok(w_u32(w_align(b, 4), x)),
            _ => Err(mismatch()),
        }
    } else if t == ROS_TYPE_INT32 {
        match v {
            RosValue::Int32(x) => Ok(w_u32(w_align(b, 4), x as u32)),
            _ => Err(mismatch()),
        }
    } else if t == ROS_TYPE_UINT64 {
        match v {
            RosValue::UInt64(x) => Ok(w_u64(w_align(b, 8), x)),
            _ => Err(mismatch()),
        }
    } else if t == ROS_TYPE_INT64 {
        match v {
            RosValue::Int64(x) => Ok(w_u64(w_align(b, 8), x as u64)),
            _ => Err(mismatch()),
        }
    } else if t == ROS_TYPE_STRING {
        match v {
            RosValue::Str(x) => ser_string(w_align(b, 4), m, x@),
            _ => Err(mismatch()),
        }
    } else if t == ROS_TYPE_WSTRING {
        match v {
            RosValue::WStr(x) => ser_wstring(w_align(b, 4), m, x@),
            _ => Err(mismatch()),
        }
    } else if t == ROS_TYPE_MESSAGE {
        match v {
            RosValue::Message(fs) => ser_message(b, m.nested@, fs@),
            _ => Err(mismatch()),
        }
    } else {
        Err(SerializeError::UnsupportedType("unsupported type id"))
    }
}

/// A message: aligned to 4, then each member's value in order.
pub open spec fn ser_message(b: Seq<u8>, ms: Seq<RosMember>, vs: Seq<RosValue>) -> Result<Seq<u8>, SerializeError>
    decreases vs, 4int,
{
    if ms.len() != vs.len() {
        Err(mismatch())
    } else {
        ser_members(w_align(b, 4), ms, vs)
    }
}

pub open spec fn ser_members(b: Seq<u8>, ms: Seq<RosMember>, vs: Seq<RosValue>) -> Result<Seq<u8>, SerializeError>
    decreases vs, 1int,
{
    if vs.len() == 0 || ms.len() != vs.len() {
        Ok(b)
    } else {
        match ser_members(b, ms.drop_last(), vs.drop_last()) {
            Ok(b2) => ser_member(b2, ms.last(), vs.last()),
            Err(e) => Err(e),
        }
    }
}

/// One member: a fixed array, a sequence, or a single value.
pub open spec fn ser_member(b: Seq<u8>, m: RosMember, v: RosValue) -> Result<Seq<u8>, SerializeError>
    decreases v, 2int,
{
    if m.is_array {
        match v {
            RosValue::Elements(es) => if is_fixed_array(m) {
                ser_fixed(b, m, es@)
            } else {
                ser_sequence(b, m, es@)
            },
            _ => Err(mismatch()),
        }
    } else {
        ser_value(b, m, v)
    }
}

pub open spec fn ser_fixed(b: Seq<u8>, m: RosMember, es: Seq<RosValue>) -> Result<Seq<u8>, SerializeError>
    decreases es, 3int,
{
    if es.len() != m.array_size {
        Err(mismatch())
    } else if !m.has_get_function && !known_type(m.type_id) {
        Err(SerializeError::UnsupportedType("unable to determine element size"))
    } else {
        ser_elems(b, m, es)
    }
}

/// A sequence: aligned to 4, its length, its elements.
pub open spec fn ser_sequence(b: Seq<u8>, m: RosMember, es: Seq<RosValue>) -> Result<Seq<u8>, SerializeError>
    decreases es, 3int,
{
    if !m.has_size_function {
        Err(SerializeError::MissingSizeFunction)
    } else if es.len() > u32::MAX {
        Err(SerializeError::BufferOverflow)
    } else if es.len() > 0 && !m.has_get_function {
        Err(SerializeError::MissingGetFunction)
    } else {
        ser_elems(w_u32(w_align(b, 4), es.len() as u32), m, es)
    }
}

pub open spec fn ser_elems(b: Seq<u8>, m: RosMember, es: Seq<RosValue>) -> Result<Seq<u8>, SerializeError>
    decreases es, 2int,
{
    if es.len() == 0 {
        Ok(b)
    } else {
        match ser_elems(b, m, es.drop_last()) {
            Ok(b2) => ser_value(b2, m, es.last()),
            Err(e) => Err(e),
        }
    }
}

/// Whether a call's outcome and the writer's bytes agree with an encoding.
pub open spec fn ser_outcome(r: Result<(), SerializeError>, out: Seq<u8>, s: Result<Seq<u8>, SerializeError>) -> bool {
    match s {
        Ok(b) => r is Ok && out == b,
        Err(e) => r == Err::<(), SerializeError>(e),
    }
}

fn write_u16s(w: &mut CdrWriter, u: &Vec<u16>)
    ensures
        final(w)@ == w_u16s(old(w)@, u@),
{
    let ghost start = w@;
    let mut i: usize = 0;
    assert(u@.take(0) =~= Seq::<u16>::empty());
    while i < u.len()
        invariant
            i <= u@.len(),
            w@ == w_u16s(start, u@.take(i as int)),
        decreases u@.len() - i,
    {
        w.write_u16(u[i]);
        assert(u@.take(i + 1).drop_last() =~= u@.take(i as int));
        i = i + 1;
    }
    assert(u@.take(u@.len() as int) =~= u@);
}

/// Writes a string: its length with the terminator, its bytes, a zero.
pub fn serialize_string(w: &mut CdrWriter, m: &RosMember, s: &Vec<u8>) -> (r: Result<(), SerializeError>)
    ensures
        ser_outcome(r, final(w)@, ser_string(old(w)@, *m, s@)),
{
    let len = s.len();
    if m.string_upper_bound > 0 && len > m.string_upper_bound {
        return Err(SerializeError::LengthExceeded("string exceeds bound"));
    }
    if len >= 4294967295 {
        return Err(SerializeError::BufferOverflow);
    }
    w.write_u32((len + 1) as u32);
    w.write_bytes(s.as_slice());
    w.write_u8(0);
    Ok(())
}

/// Writes a wide string: its length with the terminator, then 2-aligned
/// units and a zero unit.
pub fn serialize_wstring(w: &mut CdrWriter, m: &RosMember, u: &Vec<u16>) -> (r: Result<(), SerializeError>)
    ensures
        ser_outcome(r, final(w)@, ser_wstring(old(w)@, *m, u@)),
{
    let len = u.len();
    if m.string_upper_bound > 0 && len > m.string_upper_bound {
        return Err(SerializeError::LengthExceeded("wstring exceeds bound"));
    }
    if len >= 4294967295 {
        return Err(SerializeError::BufferOverflow);
    }
    w.write_u32((len + 1) as u32);
    w.align(2);
    write_u16s(w, u);
    w.write_u16(0);
    Ok(())
}

/// Writes one value of a member.
pub fn serialize_value(w: &mut CdrWriter, m: &RosMember, v: &RosValue) -> (r: Result<(), SerializeError>)
    ensures
        ser_outcome(r, final(w)@, ser_value(old(w)@, *m, *v)),
    decreases v, 0int,
{
    let t = m.type_id;
    if t == ROS_TYPE_FLOAT {
        match v {
            RosValue::Float(x) => {
                w.align(4);
                w.write_u32(*x);
                Ok(())
            },
            _ => Err(SerializeError::UnsupportedType("value does not match its member")),
        }
    } else if t == ROS_TYPE_DOUBLE {
        match v {
            RosValue::Double(x) => {
                w.align(8);
                w.write_u64(*x);
                Ok(())
            },
            _ => Err(SerializeError::UnsupportedType("value does not match its member")),
        }
    } else if t == ROS_TYPE_LONG_DOUBLE {
        match v {
            RosValue::LongDouble(x) => {
                if x.len() != LONG_DOUBLE_SIZE {
                    return Err(SerializeError::UnsupportedType("value does not match its member"));
                }
                w.align(LONG_DOUBLE_ALIGN);
                w.write_bytes(x.as_slice());
                Ok(())
            },
            _ => Err(SerializeError::UnsupportedType("value does not match its member")),
        }
    } else if t == ROS_TYPE_CHAR || t == ROS_TYPE_OCTET || t == ROS_TYPE_UINT8 {
        match v {
            RosValue::Byte(x) => {
                w.write_u8(*x);
                Ok(())
            },
            _ => Err(SerializeError::UnsupportedType("value does not match its member")),
        }
    } else if t == ROS_TYPE_INT8 {
        match v {
            RosValue::Int8(x) => {
                w.write_u8(*x as u8);
                Ok(())
            },
            _ => Err(SerializeError::UnsupportedType("value does not match its member")),
        }
    } else if t == ROS_TYPE_BOOLEAN {
        match v {
            RosValue::Bool(x) => {
                w.write_u8(if *x { 1u8 } else { 0u8 });
                Ok(())
            },
            _ => Err(SerializeError::UnsupportedType("value does not match its member")),
        }
    } else if t == ROS_TYPE_UINT16 || t == ROS_TYPE_WCHAR {
        match v {
            RosValue::UInt16(x) => {
                w.align(2);
                w.write_u16(*x);
                Ok(())
            },
            _ => Err(SerializeError::UnsupportedType("value does not match its member")),
        }
    } else if t == ROS_TYPE_INT16 {
        match v {
            RosValue::Int16(x) => {
                w.align(2);
                w.write_i16(*x);
                Ok(())
            },
            _ => Err(SerializeError::UnsupportedType("value does not match its member")),
        }
    } else if t == ROS_TYPE_UINT32 {
        match v {
            RosValue::UInt32(x) => {
                w.align(4);
                w.write_u32(*x);
                Ok(())
            },
            _ => Err(SerializeError::UnsupportedType("value does not match its member")),
        }
    } else if t == ROS_TYPE_INT32 {
        match v {
            RosValue::Int32(x) => {
                w.align(4);
                w.write_i32(*x);
                Ok(())
            },
            _ => Err(SerializeError::UnsupportedType("value does not match its member")),
        }
    } else if t == ROS_TYPE_UINT64 {
        match v {
            RosValue::UInt64(x) => {
                w.align(8);
                w.write_u64(*x);
                Ok(())
            },
            _ => Err(SerializeError::UnsupportedType("value does not match its member")),
        }
    } else if t == ROS_TYPE_INT64 {
        match v {
            RosValue::Int64(x) => {
                w.align(8);
                w.write_i64(*x);
                Ok(())
            },
            _ => Err(SerializeError::UnsupportedType("value does not match its member")),
        }
    } else if t == ROS_TYPE_STRING {
        match v {
            RosValue::Str(x) => {
                w.align(4);
                serialize_string(w, m, x)
            },
            _ => Err(SerializeError::UnsupportedType("value does not match its member")),
        }
    } else if t == ROS_TYPE_WSTRING {
        match v {
            RosValue::WStr(x) => {
                w.align(4);
                serialize_wstring(w, m, x)
            },
            _ => Err(SerializeError::UnsupportedType("value does not match its member")),
        }
    } else if t == ROS_TYPE_MESSAGE {
        match v {
            RosValue::Message(fs) => serialize_message(w, &m.nested, fs),
            _ => Err(SerializeError::UnsupportedType("value does not match its member")),
        }
    } else {
        Err(SerializeError::UnsupportedType("unsupported type id"))
    }
}

/// Writes a message: aligned to 4, then each member's value in order.
pub fn serialize_message(w: &mut CdrWriter, ms: &Vec<RosMember>, vs: &Vec<RosValue>) -> (r: Result<(), SerializeError>)
    ensures
        ser_outcome(r, final(w)@, ser_message(old(w)@, ms@, vs@)),
    decreases vs, 4int,
{
    if ms.len() != vs.len() {
        return Err(SerializeError::UnsupportedType("value does not match its member"));
    }
    w.align(4);
    let ghost start = w@;
    let mut i: usize = 0;
    assert(ms@.take(0) =~= Seq::<RosMember>::empty());
    assert(vs@.take(0) =~= Seq::<RosValue>::empty());
    while i < vs.len()
        invariant
            i <= vs@.len(),
            ms@.len() == vs@.len(),
            start == w_align(old(w)@, 4),
            ser_members(start, ms@.take(i as int), vs@.take(i as int)) == Ok::<Seq<u8>, SerializeError>(w@),
        decreases vs@.len() - i,
    {
        proof {
            assert(ms@.take(i + 1).drop_last() =~= ms@.take(i as int));
            assert(vs@.take(i + 1).drop_last() =~= vs@.take(i as int));
            assert(ms@.take(i + 1).last() == ms@[i as int]);
            assert(vs@.take(i + 1).last() == vs@[i as int]);
        }
        match serialize_member(w, &ms[i], &vs[i]) {
            Ok(()) => {},
            Err(e) => {
                proof {
                    lemma_ser_members_err(start, ms@, vs@, i as int + 1, e);
                    assert(ms@.take(vs@.len() as int) =~= ms@);
                    assert(vs@.take(vs@.len() as int) =~= vs@);
                }
                return Err(e);
            },
        }
        i = i + 1;
    }
    assert(ms@.take(vs@.len() as int) =~= ms@);
    assert(vs@.take(vs@.len() as int) =~= vs@);
    Ok(())
}

/// Once a member fails, the whole message fails with its error.
proof fn lemma_ser_members_err(b: Seq<u8>, ms: Seq<RosMember>, vs: Seq<RosValue>, n: int, e: SerializeError)
    requires
        0 < n <= vs.len(),
        ms.len() == vs.len(),
        ser_members(b, ms.take(n), vs.take(n)) == Err::<Seq<u8>, SerializeError>(e),
    ensures
        ser_members(b, ms.take(vs.len() as int), vs.take(vs.len() as int)) == Err::<Seq<u8>, SerializeError>(e),
    decreases vs.len() - n,
{
    if n < vs.len() {
        assert(ms.take(n + 1).drop_last() =~= ms.take(n));
        assert(vs.take(n + 1).drop_last() =~= vs.take(n));
        lemma_ser_members_err(b, ms, vs, n + 1, e);
    }
}

/// Once an element fails, all elements fail with its error.
proof fn lemma_ser_elems_err(b: Seq<u8>, m: RosMember, es: Seq<RosValue>, n: int, e: SerializeError)
    requires
        0 < n <= es.len(),
        ser_elems(b, m, es.take(n)) == Err::<Seq<u8>, SerializeError>(e),
    ensures
        ser_elems(b, m, es.take(es.len() as int)) == Err::<Seq<u8>, SerializeError>(e),
    decreases es.len() - n,
{
    if n < es.len() {
        assert(es.take(n + 1).drop_last() =~= es.take(n));
        lemma_ser_elems_err(b, m, es, n + 1, e);
    }
}

/// Writes one member: a fixed array, a sequence, or a single value.
pub fn serialize_member(w: &mut CdrWriter, m: &RosMember, v: &RosValue) -> (r: Result<(), SerializeError>)
    ensures
        ser_outcome(r, final(w)@, ser_member(old(w)@, *m, *v)),
    decreases v, 2int,
{
    if m.is_array {
        match v {
            RosValue::Elements(es) => {
                if m.array_size > 0 && !m.is_upper_bound {
                    serialize_fixed_array(w, m, es)
                } else {
                    serialize_sequence(w, m, es)
                }
            },
            _ => Err(SerializeError::UnsupportedType("value does not match its member")),
        }
    } else {
        serialize_value(w, m, v)
    }
}

/// Writes the elements of a fixed array.
pub fn serialize_fixed_array(w: &mut CdrWriter, m: &RosMember, es: &Vec<RosValue>) -> (r: Result<(), SerializeError>)
    ensures
        ser_outcome(r, final(w)@, ser_fixed(old(w)@, *m, es@)),
    decreases es, 3int,
{
    if es.len() != m.array_size {
        return Err(SerializeError::UnsupportedType("value does not match its member"));
    }
    if !m.has_get_function && !(1 <= m.type_id && m.type_id <= 18) {
        return Err(SerializeError::UnsupportedType("unable to determine element size"));
    }
    serialize_elements(w, m, es)
}

/// Writes a sequence: aligned to 4, its length, its elements.
pub fn serialize_sequence(w: &mut CdrWriter, m: &RosMember, es: &Vec<RosValue>) -> (r: Result<(), SerializeError>)
    ensures
        ser_outcome(r, final(w)@, ser_sequence(old(w)@, *m, es@)),
    decreases es, 3int,
{
    w.align(4);
    if !m.has_size_function {
        return Err(SerializeError::MissingSizeFunction);
    }
    if es.len() > 4294967295 {
        return Err(SerializeError::BufferOverflow);
    }
    w.write_u32(es.len() as u32);
    if es.len() > 0 && !m.has_get_function {
        return Err(SerializeError::MissingGetFunction);
    }
    serialize_elements(w, m, es)
}

/// Writes values of one member, in order.
pub fn serialize_elements(w: &mut CdrWriter, m: &RosMember, es: &Vec<RosValue>) -> (r: Result<(), SerializeError>)
    ensures
        ser_outcome(r, final(w)@, ser_elems(old(w)@, *m, es@)),
    decreases es, 2int,
{
    let ghost start = w@;
    let mut i: usize = 0;
    assert(es@.take(0) =~= Seq::<RosValue>::empty());
    while i < es.len()
        invariant
            i <= es@.len(),
            start == old(w)@,
            ser_elems(start, *m, es@.take(i as int)) == Ok::<Seq<u8>, SerializeError>(w@),
        decreases es@.len() - i,
    {
        proof {
            assert(es@.take(i + 1).drop_last() =~= es@.take(i as int));
            assert(es@.take(i + 1).last() == es@[i as int]);
        }
        match serialize_value(w, m, &es[i]) {
            Ok(()) => {},
            Err(e) => {
                proof {
                    lemma_ser_elems_err(start, *m, es@, i as int + 1, e);
                    assert(es@.take(es@.len() as int) =~= es@);
                }
                return Err(e);
            },
        }
        i = i + 1;
    }
    assert(es@.take(es@.len() as int) =~= es@);
    Ok(())
}

// ---------------------------------------------------------------------------
// Decoding

/// A value as the contracts see it: sequences in place of vectors.
pub enum RosValueView {
    Float(u32),
    Double(u64),
    LongDouble(Seq<u8>),
    Byte(u8),
    Int8(i8),
    Bool(bool),
    UInt16(u16),
    Int16(i16),
    UInt32(u32),
    Int32(i32),
    UInt64(u64),
    Int64(i64),
    Str(Seq<u8>),
    WStr(Seq<u16>),
    Message(Seq<RosValueView>),
    Elements(Seq<RosValueView>),
}

pub open spec fn value_view(v: RosValue) -> RosValueView
    decreases v, 0int,
{
    match v {
        RosValue::Float(x) => RosValueView::Float(x),
        RosValue::Double(x) => RosValueView::Double(x),
        RosValue::LongDouble(x) => RosValueView::LongDouble(x@),
        RosValue::Byte(x) => RosValueView::Byte(x),
        RosValue::Int8(x) => RosValueView::Int8(x),
        RosValue::Bool(x) => RosValueView::Bool(x),
        RosValue::UInt16(x) => RosValueView::UInt16(x),
        RosValue::Int16(x) => RosValueView::Int16(x),
        RosValue::UInt32(x) => RosValueView::UInt32(x),
        RosValue::Int32(x) => RosValueView::Int32(x),
        RosValue::UInt64(x) => RosValueView::UInt64(x),
        RosValue::Int64(x) => RosValueView::Int64(x),
        RosValue::Str(x) => RosValueView::Str(x@),
        RosValue::WStr(x) => RosValueView::WStr(x@),
        RosValue::Message(fs) => RosValueView::Message(values_view(fs@)),
        RosValue::Elements(es) => RosValueView::Elements(values_view(es@)),
    }
}

pub open spec fn values_view(s: Seq<RosValue>) -> Seq<RosValueView>
    decreases s, 1int,
{
    if s.len() == 0 {
        Seq::empty()
    } else {
        values_view(s.drop_last()).push(value_view(s.last()))
    }
}

pub open spec fn sp_u16(d: Seq<u8>, p: int) -> Result<(u16, int), DeserializeError> {
    if p + 2 <= d.len() {
        Ok((from_le2(d[p], d[p + 1]), p + 2))
    } else {
        Err(DeserializeError::BufferUnderflow)
    }
}

/// The bytes of a C string: those before the first zero.
pub open spec fn c_prefix(s: Seq<u8>) -> Seq<u8>
    decreases s.len(),
{
    if s.len() == 0 || s[0] == 0 {
        Seq::empty()
    } else {
        seq![s[0]] + c_prefix(s.drop_first())
    }
}

/// The little-endian 16-bit units of a byte string of even length.
pub open spec fn units_of(b: Seq<u8>) -> Seq<u16>
    decreases b.len(),
{
    if b.len() < 2 {
        Seq::empty()
    } else {
        units_of(b.take(b.len() - 2)).push(from_le2(b[b.len() - 2], b[b.len() - 1]))
    }
}

/// A string at `p`: its length, that many bytes, one trailing zero dropped;
/// the stored string is that text up to its first zero byte.
pub open spec fn de_string(d: Seq<u8>, p: int, m: RosMember) -> Result<(RosValueView, int), DeserializeError> {
    match sp_u32(d, p) {
        Ok((len, p1)) => match sp_bytes(d, p1, len as int) {
            Ok((raw, p2)) => {
                let content = if len > 0 && raw[len - 1] == 0 {
                    raw.take(len - 1)
                } else {
                    raw
                };
                if m.string_upper_bound > 0 && content.len() > m.string_upper_bound {
                    Err(DeserializeError::LengthExceeded("string exceeds bound"))
                } else {
                    Ok((RosValueView::Str(c_prefix(content)), p2))
                }
            },
            Err(e) => Err(e),
        },
        Err(e) => Err(e),
    }
}

/// A wide string at `p`: its unit count, 2-aligned units, one trailing
/// zero unit dropped.
pub open spec fn de_wstring(d: Seq<u8>, p: int, m: RosMember) -> Result<(RosValueView, int), DeserializeError> {
    match sp_u32(d, p) {
        Ok((count, p1)) => match sp_align(d, p1, 2) {
            Ok(p2) => if count * 2 > usize::MAX {
                Err(DeserializeError::UnsupportedType("wstring length overflow"))
            } else {
                match sp_bytes(d, p2, count * 2) {
                    Ok((raw, p3)) => {
                        let units = units_of(raw);
                        let values = if units.len() > 0 && units.last() == 0 {
                            units.drop_last()
                        } else {
                            units
                        };
                        if m.string_upper_bound > 0 && values.len() > m.string_upper_bound {
                            Err(DeserializeError::LengthExceeded("wstring exceeds bound"))
                        } else {
                            Ok((RosValueView::WStr(values), p3))
                        }
                    },
                    Err(e) => Err(e),
                }
            },
            Err(e) => Err(e),
        },
        Err(e) => Err(e),
    }
}

/// A primitive read after aligning to `a`.
pub open spec fn de_aligned(d: Seq<u8>, p: int, a: usize) -> Result<int, DeserializeError> {
    sp_align(d, p, a)
}

/// One value of a member at `p`, and the position after it.
pub open spec fn de_value(d: Seq<u8>, p: int, m: RosMember) -> Result<(RosValueView, int), DeserializeError>
    decreases m, 0int, 0int,
{
    let t = m.type_id;
    if t == ROS_TYPE_FLOAT {
        match sp_align(d, p, 4) {
            Ok(q) => match sp_u32(d, q) {
                Ok((x, q2)) => Ok((RosValueView::Float(x), q2)),
                Err(e) => Err(e),
            },
            Err(e) => Err(e),
        }
    } else if t == ROS_TYPE_DOUBLE {
        match sp_align(d, p, 8) {
            Ok(q) => match sp_u64(d, q) {
                Ok((x, q2)) => Ok((RosValueView::Double(x), q2)),
                Err(e) => Err(e),
            },
            Err(e) => Err(e),
        }
    } else if t == ROS_TYPE_LONG_DOUBLE {
        match sp_align(d, p, LONG_DOUBLE_ALIGN) {
            Ok(q) => match sp_bytes(d, q, LONG_DOUBLE_SIZE as int) {
                Ok((x, q2)) => Ok((RosValueView::LongDouble(x), q2)),
                Err(e) => Err(e),
            },
            Err(e) => Err(e),
        }
    } else if t == ROS_TYPE_CHAR || t == ROS_TYPE_OCTET || t == ROS_TYPE_UINT8 {
        match sp_u8(d, p) {
            Ok((x, q2)) => Ok((RosValueView::Byte(x), q2)),
            Err(e) => Err(e),
        }
    } else if t == ROS_TYPE_INT8 {
        match sp_u8(d, p) {
            Ok((x, q2)) => Ok((RosValueView::Int8(x as i8), q2)),
            Err(e) => Err(e),
        }
    } else if t == ROS_TYPE_BOOLEAN {
        match sp_u8(d, p) {
            Ok((x, q2)) => Ok((RosValueView::Bool(x != 0), q2)),
            Err(e) => Err(e),
        }
    } else if t == ROS_TYPE_UINT16 || t == ROS_TYPE_WCHAR {
        match sp_align(d, p, 2) {
            Ok(q) => match sp_u16(d, q) {
                Ok((x, q2)) => Ok((RosValueView::UInt16(x), q2)),
                Err(e) => Err(e),
            },
            Err(e) => Err(e),
        }
    } else if t == ROS_TYPE_INT16 {
        match sp_align(d, p, 2) {
            Ok(q) => match sp_u16(d, q) {
                Ok((x, q2)) => Ok((RosValueView::Int16(x as i16), q2)),
                Err(e) => Err(e),
            },
            Err(e) => Err(e),
        }
    } else if t == ROS_TYPE_UINT32 {
        match sp_align(d, p, 4) {
            Ok(q) => match sp_u32(d, q) {
                Ok((x, q2)) => Ok((RosValueView::UInt32(x), q2)),
                Err(e) => Err(e),
            },
            Err(e) => Err(e),
        }
    } else if t == ROS_TYPE_INT32 {
        match sp_align(d, p, 4) {
            Ok(q) => match sp_u32(d, q) {
                Ok((x, q2)) => Ok((RosValueView::Int32(x as i32), q2)),
                Err(e) => Err(e),
            },
            Err(e) => Err(e),
        }
    } else if t == ROS_TYPE_UINT64 {
        match sp_align(d, p, 8) {
            Ok(q) => match sp_u64(d, q) {
                Ok((x, q2)) => Ok((RosValueView::UInt64(x), q2)),
                Err(e) => Err(e),
            },
            Err(e) => Err(e),
        }
    } else if t == ROS_TYPE_INT64 {
        match sp_align(d, p, 8) {
            Ok(q) => match sp_u64(d, q) {
                Ok((x, q2)) => Ok((RosValueView::Int64(x as i64), q2)),
                Err(e) => Err(e),
            },
            Err(e) => Err(e),
        }
    } else if t == ROS_TYPE_STRING {
        match sp_align(d, p, 4) {
            Ok(q) => de_string(d, q, m),
            Err(e) => Err(e),
        }
    } else if t == ROS_TYPE_WSTRING {
        match sp_align(d, p, 4) {
            Ok(q) => de_wstring(d, q, m),
            Err(e) => Err(e),
        }
    } else if t == ROS_TYPE_MESSAGE {
        match sp_align(d, p, 4) {
            Ok(q) => match de_message(d, q, m.nested@) {
                Ok((fs, q2)) => Ok((RosValueView::Message(fs), q2)),
                Err(e) => Err(e),
            },
            Err(e) => Err(e),
        }
    } else {
        Err(DeserializeError::UnsupportedType("unsupported type id"))
    }
}

/// A message at `p`: aligned to 4, then each member.
pub open spec fn de_message(d: Seq<u8>, p: int, ms: Seq<RosMember>) -> Result<(Seq<RosValueView>, int), DeserializeError>
    decreases ms, 5int, 0int,
{
    match sp_align(d, p, 4) {
        Ok(q) => de_members(d, q, ms),
        Err(e) => Err(e),
    }
}

pub open spec fn de_members(d: Seq<u8>, p: int, ms: Seq<RosMember>) -> Result<(Seq<RosValueView>, int), DeserializeError>
    decreases ms, 4int, 0int,
{
    if ms.len() == 0 {
        Ok((Seq::empty(), p))
    } else {
        match de_members(d, p, ms.drop_last()) {
            Ok((vs, q)) => match de_member(d, q, ms.last()) {
                Ok((v, q2)) => Ok((vs.push(v), q2)),
                Err(e) => Err(e),
            },
            Err(e) => Err(e),
        }
    }
}

/// One member: a fixed array, a sequence, or a single value.
pub open spec fn de_member(d: Seq<u8>, p: int, m: RosMember) -> Result<(RosValueView, int), DeserializeError>
    decreases m, 3int, 0int,
{
    if m.is_array {
        if is_fixed_array(m) {
            if !m.has_get_function && !known_type(m.type_id) {
                Err(DeserializeError::UnsupportedType("unable to determine element size"))
            } else {
                match de_elems(d, p, m, m.array_size as nat, false) {
                    Ok((es, q)) => Ok((RosValueView::Elements(es), q)),
                    Err(e) => Err(e),
                }
            }
        } else {
            de_sequence(d, p, m)
        }
    } else {
        de_value(d, p, m)
    }
}

/// A sequence: aligned to 4, its length (within the bound), its elements.
pub open spec fn de_sequence(d: Seq<u8>, p: int, m: RosMember) -> Result<(RosValueView, int), DeserializeError>
    decreases m, 2int, 0int,
{
    match sp_align(d, p, 4) {
        Ok(q) => match sp_u32(d, q) {
            Ok((len, q1)) => if m.is_upper_bound && len > m.array_size {
                Err(DeserializeError::LengthExceeded("sequence exceeds bound"))
            } else if !m.has_resize_function && !m.has_assign_function {
                Err(DeserializeError::UnsupportedType("sequence without resize"))
            } else if !m.has_resize_function && len > 0 && !known_type(m.type_id) {
                Err(DeserializeError::UnsupportedType("unable to determine element size"))
            } else if !m.has_get_function && !m.has_assign_function {
                Err(DeserializeError::MissingGetFunction)
            } else {
                match de_elems(d, q1, m, len as nat, !m.has_get_function) {
                    Ok((es, q2)) => Ok((RosValueView::Elements(es), q2)),
                    Err(e) => Err(e),
                }
            },
            Err(e) => Err(e),
        },
        Err(e) => Err(e),
    }
}

/// One element of a sequence read through the element-assign accessor:
/// strings are read where they stand, without the 4-byte alignment.
pub open spec fn de_assigned(d: Seq<u8>, p: int, m: RosMember) -> Result<(RosValueView, int), DeserializeError>
    decreases m, 0int, 1int,
{
    if m.type_id == ROS_TYPE_STRING {
        de_string(d, p, m)
    } else if m.type_id == ROS_TYPE_WSTRING {
        de_wstring(d, p, m)
    } else if !known_type(m.type_id) {
        Err(DeserializeError::UnsupportedType("assign-only sequence type unsupported"))
    } else {
        de_value(d, p, m)
    }
}

/// `n` values of a member, in order; `via_assign` reads them through the
/// element-assign accessor.
pub open spec fn de_elems(d: Seq<u8>, p: int, m: RosMember, n: nat, via_assign: bool) -> Result<(Seq<RosValueView>, int), DeserializeError>
    decreases m, 1int, n,
{
    if n == 0 {
        Ok((Seq::empty(), p))
    } else {
        match de_elems(d, p, m, (n - 1) as nat, via_assign) {
            Ok((es, q)) => match (if via_assign {
                de_assigned(d, q, m)
            } else {
                de_value(d, q, m)
            }) {
                Ok((v, q2)) => Ok((es.push(v), q2)),
                Err(e) => Err(e),
            },
            Err(e) => Err(e),
        }
    }
}

pub open spec fn de_outcome(r: Result<RosValue, DeserializeError>, pos: int, s: Result<(RosValueView, int), DeserializeError>) -> bool {
    match s {
        Ok((v, q)) => r matches Ok(x) && value_view(x) == v && pos == q,
        Err(e) => r == Err::<RosValue, DeserializeError>(e),
    }
}

pub open spec fn de_outcomes(r: Result<Vec<RosValue>, DeserializeError>, pos: int, s: Result<(Seq<RosValueView>, int), DeserializeError>) -> bool {
    match s {
        Ok((vs, q)) => r matches Ok(x) && values_view(x@) == vs && pos == q,
        Err(e) => r == Err::<Vec<RosValue>, DeserializeError>(e),
    }
}

fn c_prefix_of(s: &[u8]) -> (r: Vec<u8>)
    ensures
        r@ == c_prefix(s@),
{
    let mut r: Vec<u8> = Vec::new();
    let mut i: usize = 0;
    assert(s@.skip(0) =~= s@);
    while i < s.len() && s[i] != 0
        invariant
            i <= s@.len(),
            c_prefix(s@) == r@ + c_prefix(s@.skip(i as int)),
        decreases s@.len() - i,
    {
        proof {
            let t = s@.skip(i as int);
            assert(t[0] == s@[i as int]);
            assert(t.drop_first() =~= s@.skip(i + 1));
        }
        r.push(s[i]);
        i = i + 1;
    }
    proof {
        let t = s@.skip(i as int);
        if i < s@.len() {
            assert(t[0] == s@[i as int]);
        }
        assert(c_prefix(t) =~= Seq::<u8>::empty());
    }
    assert(r@ + Seq::<u8>::empty() =~= r@);
    r
}

fn units_from(raw: &[u8]) -> (u: Vec<u16>)
    requires
        raw@.len() % 2 == 0,
    ensures
        u@ == units_of(raw@),
{
    let mut u: Vec<u16> = Vec::new();
    let mut i: usize = 0;
    assert(raw@.take(0) =~= Seq::<u8>::empty());
    while i < raw.len()
        invariant
            i <= raw@.len(),
            i % 2 == 0,
            raw@.len() % 2 == 0,
            u@ == units_of(raw@.take(i as int)),
        decreases raw@.len() - i,
    {
        let x = (raw[i] as u16) | ((raw[i + 1] as u16) << 8u16);
        proof {
            let t = raw@.take(i + 2);
            assert(t.take(t.len() - 2) =~= raw@.take(i as int));
            assert(t[t.len() - 2] == raw@[i as int]);
            assert(t[t.len() - 1] == raw@[i + 1]);
        }
        u.push(x);
        i = i + 2;
    }
    assert(raw@.take(raw@.len() as int) =~= raw@);
    u
}

/// Reads a string: its length, that many bytes, one trailing zero dropped,
/// kept up to its first zero byte.
pub fn deserialize_string(c: &mut CdrCursor, m: &RosMember) -> (r: Result<RosValue, DeserializeError>)
    ensures
        final(c).bytes() == old(c).bytes(),
        de_outcome(r, final(c).pos(), de_string(old(c).bytes(), old(c).pos(), *m)),
{
    let len = c.read_u32()?;
    let _at = c.offset();
    let raw = match c.read_bytes(len as usize) {
        Ok(raw) => raw,
        Err(e) => {
            return Err(e);
        },
    };
    assert(raw@.len() == len);
    let content: &[u8] = if len > 0 && raw[(len - 1) as usize] == 0 {
        let n = (len - 1) as usize;
        let t = vstd::slice::slice_subrange(raw, 0, n);
        assert(t@ =~= raw@.take(len - 1));
        t
    } else {
        raw
    };
    if m.string_upper_bound > 0 && content.len() > m.string_upper_bound {
        return Err(DeserializeError::LengthExceeded("string exceeds bound"));
    }
    Ok(RosValue::Str(c_prefix_of(content)))
}

/// Reads a wide string: its unit count, 2-aligned units, one trailing zero
/// unit dropped.
pub fn deserialize_wstring(c: &mut CdrCursor, m: &RosMember) -> (r: Result<RosValue, DeserializeError>)
    ensures
        final(c).bytes() == old(c).bytes(),
        de_outcome(r, final(c).pos(), de_wstring(old(c).bytes(), old(c).pos(), *m)),
{
    let count = c.read_u32()?;
    c.align(2)?;
    let total = match (count as usize).checked_mul(2) {
        Some(t) => t,
        None => {
            return Err(DeserializeError::UnsupportedType("wstring length overflow"));
        },
    };
    let raw = c.read_bytes(total)?;
    let mut values = units_from(raw);
    if values.len() > 0 && values[values.len() - 1] == 0 {
        values.pop();
    }
    if m.string_upper_bound > 0 && values.len() > m.string_upper_bound {
        return Err(DeserializeError::LengthExceeded("wstring exceeds bound"));
    }
    Ok(RosValue::WStr(values))
}

/// Reads one value of a member.
pub fn deserialize_value(c: &mut CdrCursor, m: &RosMember) -> (r: Result<RosValue, DeserializeError>)
    ensures
        final(c).bytes() == old(c).bytes(),
        de_outcome(r, final(c).pos(), de_value(old(c).bytes(), old(c).pos(), *m)),
    decreases m, 0int, 0int,
{
    let t = m.type_id;
    if t == ROS_TYPE_FLOAT {
        c.align(4)?;
        Ok(RosValue::Float(c.read_u32()?))
    } else if t == ROS_TYPE_DOUBLE {
        c.align(8)?;
        Ok(RosValue::Double(c.read_u64()?))
    } else if t == ROS_TYPE_LONG_DOUBLE {
        c.align(LONG_DOUBLE_ALIGN)?;
        let b = c.read_bytes(LONG_DOUBLE_SIZE)?;
        Ok(RosValue::LongDouble(vstd::slice::slice_to_vec(b)))
    } else if t == ROS_TYPE_CHAR || t == ROS_TYPE_OCTET || t == ROS_TYPE_UINT8 {
        Ok(RosValue::Byte(c.read_u8()?))
    } else if t == ROS_TYPE_INT8 {
        Ok(RosValue::Int8(c.read_u8()? as i8))
    } else if t == ROS_TYPE_BOOLEAN {
        Ok(RosValue::Bool(c.read_u8()? != 0))
    } else if t == ROS_TYPE_UINT16 || t == ROS_TYPE_WCHAR {
        c.align(2)?;
        Ok(RosValue::UInt16(c.read_u16()?))
    } else if t == ROS_TYPE_INT16 {
        c.align(2)?;
        Ok(RosValue::Int16(c.read_i16()?))
    } else if t == ROS_TYPE_UINT32 {
        c.align(4)?;
        Ok(RosValue::UInt32(c.read_u32()?))
    } else if t == ROS_TYPE_INT32 {
        c.align(4)?;
        Ok(RosValue::Int32(c.read_i32()?))
    } else if t == ROS_TYPE_UINT64 {
        c.align(8)?;
        Ok(RosValue::UInt64(c.read_u64()?))
    } else if t == ROS_TYPE_INT64 {
        c.align(8)?;
        Ok(RosValue::Int64(c.read_i64()?))
    } else if t == ROS_TYPE_STRING {
        c.align(4)?;
        deserialize_string(c, m)
    } else if t == ROS_TYPE_WSTRING {
        c.align(4)?;
        deserialize_wstring(c, m)
    } else if t == ROS_TYPE_MESSAGE {
        c.align(4)?;
        let fs = deserialize_message(c, &m.nested)?;
        Ok(RosValue::Message(fs))
    } else {
        Err(DeserializeError::UnsupportedType("unsupported type id"))
    }
}

/// Reads a message: aligned to 4, then each member in order.
pub fn deserialize_message(c: &mut CdrCursor, ms: &Vec<RosMember>) -> (r: Result<Vec<RosValue>, DeserializeError>)
    ensures
        final(c).bytes() == old(c).bytes(),
        de_outcomes(r, final(c).pos(), de_message(old(c).bytes(), old(c).pos(), ms@)),
    decreases ms, 5int, 0int,
{
    c.align(4)?;
    let ghost d = c.bytes();
    let ghost start = c.pos();
    let mut out: Vec<RosValue> = Vec::new();
    let mut i: usize = 0;
    assert(ms@.take(0) =~= Seq::<RosMember>::empty());
    while i < ms.len()
        invariant
            i <= ms@.len(),
            c.bytes() == d,
            d == old(c).bytes(),
            sp_align(d, old(c).pos(), 4) == Ok::<int, DeserializeError>(start),
            de_members(d, start, ms@.take(i as int)) == Ok::<(Seq<RosValueView>, int), DeserializeError>((values_view(out@), c.pos())),
        decreases ms@.len() - i,
    {
        proof {
            assert(ms@.take(i + 1).drop_last() =~= ms@.take(i as int));
            assert(ms@.take(i + 1).last() == ms@[i as int]);
        }
        let ghost before = out@;
        match deserialize_member(c, &ms[i]) {
            Ok(v) => {
                out.push(v);
                proof {
                    lemma_values_view_push(before, v);
                }
            },
            Err(e) => {
                proof {
                    lemma_de_members_err(d, start, ms@, i as int + 1, e);
                    assert(ms@.take(ms@.len() as int) =~= ms@);
                }
                return Err(e);
            },
        }
        i = i + 1;
    }
    assert(ms@.take(ms@.len() as int) =~= ms@);
    Ok(out)
}

proof fn lemma_values_view_push(s: Seq<RosValue>, v: RosValue)
    ensures
        values_view(s.push(v)) == values_view(s).push(value_view(v)),
{
    assert(s.push(v).drop_last() =~= s);
}

proof fn lemma_de_members_err(d: Seq<u8>, p: int, ms: Seq<RosMember>, n: int, e: DeserializeError)
    requires
        0 < n <= ms.len(),
        de_members(d, p, ms.take(n)) == Err::<(Seq<RosValueView>, int), DeserializeError>(e),
    ensures
        de_members(d, p, ms.take(ms.len() as int)) == Err::<(Seq<RosValueView>, int), DeserializeError>(e),
    decreases ms.len() - n,
{
    if n < ms.len() {
        assert(ms.take(n + 1).drop_last() =~= ms.take(n));
        lemma_de_members_err(d, p, ms, n + 1, e);
    }
}

proof fn lemma_de_elems_err(d: Seq<u8>, p: int, m: RosMember, n: nat, total: nat, via_assign: bool, e: DeserializeError)
    requires
        0 < n <= total,
        de_elems(d, p, m, n, via_assign) == Err::<(Seq<RosValueView>, int), DeserializeError>(e),
    ensures
        de_elems(d, p, m, total, via_assign) == Err::<(Seq<RosValueView>, int), DeserializeError>(e),
    decreases total - n,
{
    if n < total {
        lemma_de_elems_err(d, p, m, n + 1, total, via_assign, e);
    }
}

/// Reads one member: a fixed array, a sequence, or a single value.
pub fn deserialize_member(c: &mut CdrCursor, m: &RosMember) -> (r: Result<RosValue, DeserializeError>)
    ensures
        final(c).bytes() == old(c).bytes(),
        de_outcome(r, final(c).pos(), de_member(old(c).bytes(), old(c).pos(), *m)),
    decreases m, 3int, 0int,
{
    if m.is_array {
        if m.array_size > 0 && !m.is_upper_bound {
            if !m.has_get_function && !(1 <= m.type_id && m.type_id <= 18) {
                return Err(DeserializeError::UnsupportedType("unable to determine element size"));
            }
            let es = deserialize_elements(c, m, m.array_size, false)?;
            Ok(RosValue::Elements(es))
        } else {
            deserialize_sequence(c, m)
        }
    } else {
        deserialize_value(c, m)
    }
}

/// Reads a sequence: aligned to 4, its length (within the bound), its
/// elements.
pub fn deserialize_sequence(c: &mut CdrCursor, m: &RosMember) -> (r: Result<RosValue, DeserializeError>)
    ensures
        final(c).bytes() == old(c).bytes(),
        de_outcome(r, final(c).pos(), de_sequence(old(c).bytes(), old(c).pos(), *m)),
    decreases m, 2int, 0int,
{
    c.align(4)?;
    let len = c.read_u32()?;
    if m.is_upper_bound && len as usize > m.array_size {
        return Err(DeserializeError::LengthExceeded("sequence exceeds bound"));
    }
    if !m.has_resize_function && !m.has_assign_function {
        return Err(DeserializeError::UnsupportedType("sequence without resize"));
    }
    if !m.has_resize_function && len > 0 && !(1 <= m.type_id && m.type_id <= 18) {
        return Err(DeserializeError::UnsupportedType("unable to determine element size"));
    }
    if !m.has_get_function && !m.has_assign_function {
        return Err(DeserializeError::MissingGetFunction);
    }
    let es = deserialize_elements(c, m, len as usize, !m.has_get_function)?;
    Ok(RosValue::Elements(es))
}

/// Reads a sequence element through the element-assign accessor.
fn deserialize_assigned(c: &mut CdrCursor, m: &RosMember) -> (r: Result<RosValue, DeserializeError>)
    ensures
        final(c).bytes() == old(c).bytes(),
        de_outcome(r, final(c).pos(), de_assigned(old(c).bytes(), old(c).pos(), *m)),
    decreases m, 0int, 1int,
{
    if m.type_id == ROS_TYPE_STRING {
        deserialize_string(c, m)
    } else if m.type_id == ROS_TYPE_WSTRING {
        deserialize_wstring(c, m)
    } else if !(1 <= m.type_id && m.type_id <= 18) {
        Err(DeserializeError::UnsupportedType("assign-only sequence type unsupported"))
    } else {
        deserialize_value(c, m)
    }
}

/// Reads `n` values of a member.
pub fn deserialize_elements(c: &mut CdrCursor, m: &RosMember, n: usize, via_assign: bool) -> (r: Result<Vec<RosValue>, DeserializeError>)
    ensures
        final(c).bytes() == old(c).bytes(),
        de_outcomes(r, final(c).pos(), de_elems(old(c).bytes(), old(c).pos(), *m, n as nat, via_assign)),
    decreases m, 1int, n,
{
    let ghost d = c.bytes();
    let ghost start = c.pos();
    let mut out: Vec<RosValue> = Vec::new();
    let mut i: usize = 0;
    while i < n
        invariant
            i <= n,
            c.bytes() == d,
            d == old(c).bytes(),
            start == old(c).pos(),
            de_elems(d, start, *m, i as nat, via_assign) == Ok::<(Seq<RosValueView>, int), DeserializeError>((values_view(out@), c.pos())),
        decreases n - i,
    {
        let ghost before = out@;
        let item = if via_assign {
            deserialize_assigned(c, m)
        } else {
            deserialize_value(c, m)
        };
        match item {
            Ok(v) => {
                out.push(v);
                proof {
                    lemma_values_view_push(before, v);
                }
            },
            Err(e) => {
                proof {
                    lemma_de_elems_err(d, start, *m, (i + 1) as nat, n as nat, via_assign, e);
                }
                return Err(e);
            },
        }
        i = i + 1;
    }
    Ok(out)
}

/// Encodes a message of the given members; errors are reported as at the
/// middleware API.
pub fn serialize_ros_message(members: &Vec<RosMember>, values: &Vec<RosValue>) -> (r: Result<BytePayload, ApiError>)
    ensures
        match ser_message(Seq::empty(), members@, values@) {
            Ok(b) => r matches Ok(p) && p.data@ == b,
            Err(e) => r == Err::<BytePayload, ApiError>(spec_map_serialize_error(e)),
        },
{
    let mut w = CdrWriter::new();
    match serialize_message(&mut w, members, values) {
        Ok(()) => Ok(w.into_payload()),
        Err(e) => Err(map_serialize_error(e)),
    }
}

/// Decodes a message of the given members from `data`; empty data holds
/// nothing to decode (`None`). Errors are reported as at the middleware API.
pub fn deserialize_ros_message(members: &Vec<RosMember>, data: &[u8]) -> (r: Result<Option<Vec<RosValue>>, ApiError>)
    ensures
        data@.len() == 0 ==> r matches Ok(None),
        data@.len() > 0 ==> match de_message(data@, 0, members@) {
            Ok((vs, _)) => r matches Ok(Some(x)) && values_view(x@) == vs,
            Err(e) => r == Err::<Option<Vec<RosValue>>, ApiError>(spec_map_deserialize_error(e)),
        },
{
    if data.len() == 0 {
        return Ok(None);
    }
    let mut c = CdrCursor::new(data);
    match deserialize_message(&mut c, members) {
        Ok(vs) => Ok(Some(vs)),
        Err(e) => Err(map_deserialize_error(e)),
    }
}

// ---------------------------------------------------------------------------
// Round trip

/// Whether a value is read back as it was written: the reader keeps a
/// string up to its first zero byte, and counts a wide string's bytes in a
/// `usize`.
pub open spec fn value_readable(m: RosMember, v: RosValue) -> bool
    decreases v, 0int,
{
    match v {
        RosValue::Str(x) => !x@.contains(0u8),
        RosValue::WStr(x) => (x@.len() + 1) * 2 <= usize::MAX,
        RosValue::Message(fs) => members_readable(m.nested@, fs@),
        _ => true,
    }
}

pub open spec fn members_readable(ms: Seq<RosMember>, vs: Seq<RosValue>) -> bool
    decreases vs, 1int,
{
    if vs.len() == 0 || ms.len() != vs.len() {
        true
    } else {
        members_readable(ms.drop_last(), vs.drop_last()) && member_readable(ms.last(), vs.last())
    }
}

/// Whether the reader accepts a sequence of `n` elements of the member:
/// within its bound, with accessors to store them.
pub open spec fn sequence_readable(m: RosMember, n: nat) -> bool {
    &&& !(m.is_upper_bound && n > m.array_size)
    &&& m.has_resize_function || m.has_assign_function
    &&& m.has_resize_function || n == 0 || known_type(m.type_id)
    &&& m.has_get_function || m.has_assign_function
}

pub open spec fn member_readable(m: RosMember, v: RosValue) -> bool
    decreases v, 2int,
{
    if m.is_array {
        match v {
            RosValue::Elements(es) => (is_fixed_array(m) || sequence_readable(m, es@.len()))
                && elems_readable(m, es@),
            _ => true,
        }
    } else {
        value_readable(m, v)
    }
}

pub open spec fn elems_readable(m: RosMember, es: Seq<RosValue>) -> bool
    decreases es, 2int,
{
    if es.len() == 0 {
        true
    } else {
        elems_readable(m, es.drop_last()) && value_readable(m, es.last())
    }
}

proof fn lemma_c_prefix_plain(s: Seq<u8>)
    requires
        !s.contains(0u8),
    ensures
        c_prefix(s) == s,
    decreases s.len(),
{
    if s.len() > 0 {
        if s[0] == 0 {
            assert(s.contains(0u8));
        }
        let t = s.drop_first();
        if t.contains(0u8) {
            let i = choose|i: int| 0 <= i < t.len() && t[i] == 0u8;
            assert(s[i + 1] == 0u8);
        }
        lemma_c_prefix_plain(t);
        assert(seq![s[0]] + t =~= s);
    }
}

proof fn lemma_u16s_bytes(c: Seq<u8>, u: Seq<u16>)
    ensures
        w_u16s(c, u) == c + w_u16s(Seq::empty(), u),
        w_u16s(Seq::empty(), u).len() == 2 * u.len(),
        units_of(w_u16s(Seq::empty(), u)) == u,
    decreases u.len(),
{
    if u.len() > 0 {
        lemma_u16s_bytes(c, u.drop_last());
        let e = w_u16s(Seq::<u8>::empty(), u.drop_last());
        assert(w_u16s(c, u) =~= c + w_u16s(Seq::empty(), u));
        let f = e + le2(u.last());
        assert(f.take(f.len() - 2) =~= e);
        lemma_le2_roundtrip(u.last());
        assert(u.drop_last().push(u.last()) =~= u);
    }
}

proof fn lemma_read_u16(b: Seq<u8>, v: u16, d: Seq<u8>)
    requires
        is_prefix(b + le2(v), d),
    ensures
        sp_u16(d, b.len() as int) == Ok::<(u16, int), DeserializeError>((v, b.len() + 2int)),
        is_prefix(b, d),
{
    lemma_prefix_append(b, le2(v), d);
    let p = b.len() as int;
    let x = d.subrange(p, p + 2);
    assert(x[0] == d[p] && x[1] == d[p + 1]);
    lemma_le2_roundtrip(v);
}

proof fn lemma_prefix_refl(b: Seq<u8>)
    ensures
        is_prefix(b, b),
{
    assert(b.subrange(0, b.len() as int) =~= b);
}

proof fn lemma_prefix_concat(b: Seq<u8>, x: Seq<u8>)
    ensures
        is_prefix(b, b + x),
{
    assert((b + x).subrange(0, b.len() as int) =~= b);
}

// What the encoder appends keeps what was there.

proof fn lemma_ext_value(b: Seq<u8>, m: RosMember, v: RosValue)
    requires
        ser_value(b, m, v) is Ok,
    ensures
        is_prefix(b, ser_value(b, m, v)->Ok_0),
    decreases v, 0int,
{
    let r = ser_value(b, m, v)->Ok_0;
    let t = m.type_id;
    if t == ROS_TYPE_MESSAGE {
        match v {
            RosValue::Message(fs) => lemma_ext_message(b, m.nested@, fs@),
            _ => {},
        }
    } else if t == ROS_TYPE_WSTRING {
        match v {
            RosValue::WStr(u) => {
                let b3 = w_align(w_u32(w_align(b, 4), (u@.len() + 1) as u32), 2);
                lemma_u16s_bytes(b3, u@);
                assert(r.subrange(0, b.len() as int) =~= b);
            },
            _ => {},
        }
    } else {
        assert(r.subrange(0, b.len() as int) =~= b);
    }
}

proof fn lemma_ext_message(b: Seq<u8>, ms: Seq<RosMember>, vs: Seq<RosValue>)
    requires
        ser_message(b, ms, vs) is Ok,
    ensures
        is_prefix(b, ser_message(b, ms, vs)->Ok_0),
    decreases vs, 4int,
{
    let b1 = w_align(b, 4);
    lemma_ext_members(b1, ms, vs);
    lemma_prefix_concat(b, zeros(writer_padding(b.len() as usize, 4)));
    lemma_prefix_trans(b, b1, ser_message(b, ms, vs)->Ok_0);
}

proof fn lemma_ext_members(b: Seq<u8>, ms: Seq<RosMember>, vs: Seq<RosValue>)
    requires
        ser_members(b, ms, vs) is Ok,
    ensures
        is_prefix(b, ser_members(b, ms, vs)->Ok_0),
    decreases vs, 1int,
{
    if vs.len() == 0 || ms.len() != vs.len() {
        lemma_prefix_refl(b);
    } else {
        let b2 = ser_members(b, ms.drop_last(), vs.drop_last())->Ok_0;
        lemma_ext_members(b, ms.drop_last(), vs.drop_last());
        lemma_ext_member(b2, ms.last(), vs.last());
        lemma_prefix_trans(b, b2, ser_members(b, ms, vs)->Ok_0);
    }
}

proof fn lemma_ext_member(b: Seq<u8>, m: RosMember, v: RosValue)
    requires
        ser_member(b, m, v) is Ok,
    ensures
        is_prefix(b, ser_member(b, m, v)->Ok_0),
    decreases v, 2int,
{
    if m.is_array {
        match v {
            RosValue::Elements(es) => {
                if is_fixed_array(m) {
                    lemma_ext_elems(b, m, es@);
                } else {
                    let b2 = w_u32(w_align(b, 4), es@.len() as u32);
                    lemma_ext_elems(b2, m, es@);
                    assert(b2.subrange(0, b.len() as int) =~= b);
                    lemma_prefix_trans(b, b2, ser_member(b, m, v)->Ok_0);
                }
            },
            _ => {},
        }
    } else {
        lemma_ext_value(b, m, v);
    }
}

proof fn lemma_ext_elems(b: Seq<u8>, m: RosMember, es: Seq<RosValue>)
    requires
        ser_elems(b, m, es) is Ok,
    ensures
        is_prefix(b, ser_elems(b, m, es)->Ok_0),
    decreases es, 2int,
{
    if es.len() == 0 {
        lemma_prefix_refl(b);
    } else {
        let b2 = ser_elems(b, m, es.drop_last())->Ok_0;
        lemma_ext_elems(b, m, es.drop_last());
        lemma_ext_value(b2, m, es.last());
        lemma_prefix_trans(b, b2, ser_elems(b, m, es)->Ok_0);
    }
}

// What the decoder reads back of what the encoder wrote.

proof fn lemma_scalar_rt(b: Seq<u8>, m: RosMember, v: RosValue, d: Seq<u8>)
    requires
        m.type_id != ROS_TYPE_MESSAGE,
        m.type_id != ROS_TYPE_STRING,
        m.type_id != ROS_TYPE_WSTRING,
        ser_value(b, m, v) is Ok,
        is_prefix(ser_value(b, m, v)->Ok_0, d),
        d.len() + 32 <= usize::MAX,
    ensures
        de_value(d, b.len() as int, m) == Ok::<(RosValueView, int), DeserializeError>(
            (value_view(v), ser_value(b, m, v)->Ok_0.len() as int),
        ),
        is_prefix(b, d),
{
    let r = ser_value(b, m, v)->Ok_0;
    let t = m.type_id;
    if t == ROS_TYPE_FLOAT || t == ROS_TYPE_UINT32 || t == ROS_TYPE_INT32 {
        let x: u32 = match v {
            RosValue::Float(x) => x,
            RosValue::UInt32(x) => x,
            RosValue::Int32(x) => {
                lemma_i32_roundtrip(x);
                x as u32
            },
            _ => 0,
        };
        lemma_read_u32(w_align(b, 4), x, d);
        lemma_read_align_any(b, 4, d);
    } else if t == ROS_TYPE_DOUBLE || t == ROS_TYPE_UINT64 || t == ROS_TYPE_INT64 {
        let x: u64 = match v {
            RosValue::Double(x) => x,
            RosValue::UInt64(x) => x,
            RosValue::Int64(x) => {
                lemma_i64_roundtrip(x);
                x as u64
            },
            _ => 0,
        };
        lemma_read_u64(w_align(b, 8), x, d);
        lemma_read_align_any(b, 8, d);
    } else if t == ROS_TYPE_LONG_DOUBLE {
        match v {
            RosValue::LongDouble(x) => {
                lemma_read_bytes(w_align(b, 16), x@, d);
                lemma_read_align_any(b, 16, d);
            },
            _ => {},
        }
    } else if t == ROS_TYPE_CHAR || t == ROS_TYPE_OCTET || t == ROS_TYPE_UINT8 || t
        == ROS_TYPE_INT8 || t == ROS_TYPE_BOOLEAN {
        let x: u8 = match v {
            RosValue::Byte(x) => x,
            RosValue::Int8(x) => {
                assert((x as u8) as i8 == x) by (bit_vector);
                x as u8
            },
            RosValue::Bool(x) => if x {
                1u8
            } else {
                0u8
            },
            _ => 0,
        };
        lemma_read_u8(b, x, d);
    } else if t == ROS_TYPE_UINT16 || t == ROS_TYPE_WCHAR || t == ROS_TYPE_INT16 {
        let x: u16 = match v {
            RosValue::UInt16(x) => x,
            RosValue::Int16(x) => {
                lemma_i16_roundtrip(x);
                x as u16
            },
            _ => 0,
        };
        lemma_read_u16(w_align(b, 2), x, d);
        lemma_read_align_any(b, 2, d);
    }
}

proof fn lemma_text_rt(b: Seq<u8>, m: RosMember, v: RosValue, d: Seq<u8>)
    requires
        m.type_id == ROS_TYPE_STRING || m.type_id == ROS_TYPE_WSTRING,
        ser_value(b, m, v) is Ok,
        is_prefix(ser_value(b, m, v)->Ok_0, d),
        value_readable(m, v),
        d.len() + 32 <= usize::MAX,
    ensures
        de_value(d, b.len() as int, m) == Ok::<(RosValueView, int), DeserializeError>(
            (value_view(v), ser_value(b, m, v)->Ok_0.len() as int),
        ),
        is_prefix(b, d),
{
    let r = ser_value(b, m, v)->Ok_0;
    let t = m.type_id;
    if t == ROS_TYPE_STRING {
        match v {
            RosValue::Str(x) => {
                let s = x@;
                let b1 = w_align(b, 4);
                let n1 = (s.len() + 1) as u32;
                let b2 = w_u32(b1, n1);
                assert(r =~= b2 + s.push(0));
                lemma_read_bytes(b2, s.push(0), d);
                lemma_read_u32(b1, n1, d);
                lemma_read_align_any(b, 4, d);
                assert(s.push(0).take(s.len() as int) =~= s);
                lemma_c_prefix_plain(s);
            },
            _ => {},
        }
    } else if t == ROS_TYPE_WSTRING {
        match v {
            RosValue::WStr(x) => {
                let u = x@;
                let b1 = w_align(b, 4);
                let n1 = (u.len() + 1) as u32;
                let b2 = w_u32(b1, n1);
                let b3 = w_align(b2, 2);
                assert(u.push(0).drop_last() =~= u);
                lemma_u16s_bytes(b3, u.push(0));
                let raw = w_u16s(Seq::<u8>::empty(), u.push(0));
                assert(r == b3 + raw);
                lemma_read_bytes(b3, raw, d);
                lemma_read_align_any(b2, 2, d);
                lemma_read_u32(b1, n1, d);
                lemma_read_align_any(b, 4, d);
            },
            _ => {},
        }
    }
}

proof fn lemma_value_rt(b: Seq<u8>, m: RosMember, v: RosValue, d: Seq<u8>)
    requires
        ser_value(b, m, v) is Ok,
        is_prefix(ser_value(b, m, v)->Ok_0, d),
        value_readable(m, v),
        d.len() + 32 <= usize::MAX,
    ensures
        de_value(d, b.len() as int, m) == Ok::<(RosValueView, int), DeserializeError>(
            (value_view(v), ser_value(b, m, v)->Ok_0.len() as int),
        ),
        is_prefix(b, d),
    decreases v, 0int,
{
    let r = ser_value(b, m, v)->Ok_0;
    let t = m.type_id;
    if t == ROS_TYPE_MESSAGE {
        match v {
            RosValue::Message(fs) => {
                let b1 = w_align(b, 4);
                lemma_ext_members(b1, m.nested@, fs@);
                lemma_prefix_trans(b1, r, d);
                lemma_align_idem(b, 4);
                lemma_message_rt(b1, m.nested@, fs@, d);
                lemma_read_align_any(b, 4, d);
            },
            _ => {},
        }
    } else if t == ROS_TYPE_STRING || t == ROS_TYPE_WSTRING {
        lemma_text_rt(b, m, v, d);
    } else {
        lemma_scalar_rt(b, m, v, d);
    }
}

proof fn lemma_message_rt(b: Seq<u8>, ms: Seq<RosMember>, vs: Seq<RosValue>, d: Seq<u8>)
    requires
        ser_message(b, ms, vs) is Ok,
        is_prefix(ser_message(b, ms, vs)->Ok_0, d),
        members_readable(ms, vs),
        d.len() + 32 <= usize::MAX,
    ensures
        de_message(d, b.len() as int, ms) == Ok::<(Seq<RosValueView>, int), DeserializeError>(
            (values_view(vs), ser_message(b, ms, vs)->Ok_0.len() as int),
        ),
        is_prefix(b, d),
    decreases vs, 4int,
{
    lemma_members_rt(w_align(b, 4), ms, vs, d);
    lemma_read_align_any(b, 4, d);
}

proof fn lemma_members_rt(b: Seq<u8>, ms: Seq<RosMember>, vs: Seq<RosValue>, d: Seq<u8>)
    requires
        ms.len() == vs.len(),
        ser_members(b, ms, vs) is Ok,
        is_prefix(ser_members(b, ms, vs)->Ok_0, d),
        members_readable(ms, vs),
        d.len() + 32 <= usize::MAX,
    ensures
        de_members(d, b.len() as int, ms) == Ok::<(Seq<RosValueView>, int), DeserializeError>(
            (values_view(vs), ser_members(b, ms, vs)->Ok_0.len() as int),
        ),
        is_prefix(b, d),
    decreases vs, 1int,
{
    if vs.len() > 0 {
        let b2 = ser_members(b, ms.drop_last(), vs.drop_last())->Ok_0;
        lemma_ext_member(b2, ms.last(), vs.last());
        lemma_prefix_trans(b2, ser_members(b, ms, vs)->Ok_0, d);
        lemma_members_rt(b, ms.drop_last(), vs.drop_last(), d);
        lemma_member_rt(b2, ms.last(), vs.last(), d);
    }
}

proof fn lemma_member_rt(b: Seq<u8>, m: RosMember, v: RosValue, d: Seq<u8>)
    requires
        ser_member(b, m, v) is Ok,
        is_prefix(ser_member(b, m, v)->Ok_0, d),
        member_readable(m, v),
        d.len() + 32 <= usize::MAX,
    ensures
        de_member(d, b.len() as int, m) == Ok::<(RosValueView, int), DeserializeError>(
            (value_view(v), ser_member(b, m, v)->Ok_0.len() as int),
        ),
        is_prefix(b, d),
    decreases v, 2int,
{
    let r = ser_member(b, m, v)->Ok_0;
    if m.is_array {
        match v {
            RosValue::Elements(es) => {
                if is_fixed_array(m) {
                    lemma_elems_rt(b, m, es@, d);
                } else {
                    let n = es@.len();
                    let b1 = w_align(b, 4);
                    let b2 = w_u32(b1, n as u32);
                    lemma_ext_elems(b2, m, es@);
                    lemma_prefix_trans(b2, r, d);
                    lemma_elems_rt(b2, m, es@, d);
                    lemma_read_u32(b1, n as u32, d);
                    lemma_read_align_any(b, 4, d);
                }
            },
            _ => {},
        }
    } else {
        lemma_value_rt(b, m, v, d);
    }
}

proof fn lemma_elems_rt(b: Seq<u8>, m: RosMember, es: Seq<RosValue>, d: Seq<u8>)
    requires
        ser_elems(b, m, es) is Ok,
        is_prefix(ser_elems(b, m, es)->Ok_0, d),
        elems_readable(m, es),
        d.len() + 32 <= usize::MAX,
    ensures
        de_elems(d, b.len() as int, m, es.len(), false) == Ok::<
            (Seq<RosValueView>, int),
            DeserializeError,
        >((values_view(es), ser_elems(b, m, es)->Ok_0.len() as int)),
        is_prefix(b, d),
    decreases es, 2int,
{
    if es.len() == 0 {
        lemma_prefix_refl(b);
        lemma_prefix_trans(b, b, d);
    } else {
        let b2 = ser_elems(b, m, es.drop_last())->Ok_0;
        lemma_ext_value(b2, m, es.last());
        lemma_prefix_trans(b2, ser_elems(b, m, es)->Ok_0, d);
        lemma_elems_rt(b, m, es.drop_last(), d);
        lemma_value_rt(b2, m, es.last(), d);
        assert((es.len() - 1) as nat == es.drop_last().len());
    }
}

/// Decoding an encoded message gives back its values, where every string
/// holds no zero byte and every sequence can be read back at its length.
pub proof fn law_message_roundtrip(ms: Seq<RosMember>, vs: Seq<RosValue>)
    requires
        ser_message(Seq::empty(), ms, vs) is Ok,
        members_readable(ms, vs),
        ser_message(Seq::empty(), ms, vs)->Ok_0.len() + 32 <= usize::MAX,
    ensures
        de_message(ser_message(Seq::empty(), ms, vs)->Ok_0, 0, ms) == Ok::<
            (Seq<RosValueView>, int),
            DeserializeError,
        >((values_view(vs), ser_message(Seq::empty(), ms, vs)->Ok_0.len() as int)),
{
    let d = ser_message(Seq::empty(), ms, vs)->Ok_0;
    lemma_prefix_refl(d);
    lemma_message_rt(Seq::empty(), ms, vs, d);
}

} // verus!
