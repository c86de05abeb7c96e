//! CDR codec for `rcl_interfaces/ParameterEvent` and the sequences it holds.
use vstd::prelude::*;
use crate::cdr::{
    ApiError, BytePayload, CdrCursor, CdrWriter, DeserializeError, SerializeError, is_prefix,
    lemma_i64_roundtrip, lemma_read_align, lemma_read_bytes, lemma_read_u32, lemma_read_u64,
    lemma_read_u8, map_deserialize_error, map_serialize_error, sp_align, sp_bytes, sp_u32, sp_u64,
    sp_u8, spec_map_deserialize_error, spec_map_serialize_error, w_align, w_u32, w_u64, w_u8,
    le4, lemma_prefix_append,
};
use crate::ros_codec::{
    BuiltinTime, cdr_string_fits, lemma_read_cdr_string, lemma_read_time, read_cdr_string,
    read_time, sp_cdr_string, sp_time, w_cdr_string, w_time, write_cdr_string, write_time,
    cdr_text_end, holds_cdr_text, lemma_cdr_string_bytes, lemma_time_bytes,
};

verus! {

/// `rcl_interfaces/ParameterValue`; `float64` values are held by their bits.
pub struct ParameterValue {
    pub type_: u8,
    pub bool_value: bool,
    pub integer_value: i64,
    pub double_value_bits: u64,
    pub string_value: Vec<u8>,
    pub byte_array_value: Vec<u8>,
    pub bool_array_value: Vec<bool>,
    pub integer_array_value: Vec<i64>,
    pub double_array_value_bits: Vec<u64>,
    pub string_array_value: Vec<Vec<u8>>,
}

/// `rcl_interfaces/Parameter`.
pub struct Parameter {
    pub name: Vec<u8>,
    pub value: ParameterValue,
}

/// `rcl_interfaces/ParameterEvent`.
pub struct ParameterEvent {
    pub stamp: BuiltinTime,
    pub node: Vec<u8>,
    pub new_parameters: Vec<Parameter>,
    pub changed_parameters: Vec<Parameter>,
    pub deleted_parameters: Vec<Parameter>,
}

pub struct ParameterValueView {
    pub type_: u8,
    pub bool_value: bool,
    pub integer_value: i64,
    pub double_value_bits: u64,
    pub string_value: Seq<u8>,
    pub byte_array_value: Seq<u8>,
    pub bool_array_value: Seq<bool>,
    pub integer_array_value: Seq<i64>,
    pub double_array_value_bits: Seq<u64>,
    pub string_array_value: Seq<Seq<u8>>,
}

pub struct ParameterView {
    pub name: Seq<u8>,
    pub value: ParameterValueView,
}

pub struct ParameterEventView {
    pub stamp: BuiltinTime,
    pub node: Seq<u8>,
    pub new_parameters: Seq<ParameterView>,
    pub changed_parameters: Seq<ParameterView>,
    pub deleted_parameters: Seq<ParameterView>,
}

pub open spec fn strings_view(v: Seq<Vec<u8>>) -> Seq<Seq<u8>> {
    v.map_values(|s: Vec<u8>| s@)
}

impl View for ParameterValue {
    type V = ParameterValueView;

    open spec fn view(&self) -> ParameterValueView {
        ParameterValueView {
            type_: self.type_,
            bool_value: self.bool_value,
            integer_value: self.integer_value,
            double_value_bits: self.double_value_bits,
            string_value: self.string_value@,
            byte_array_value: self.byte_array_value@,
            bool_array_value: self.bool_array_value@,
            integer_array_value: self.integer_array_value@,
            double_array_value_bits: self.double_array_value_bits@,
            string_array_value: strings_view(self.string_array_value@),
        }
    }
}

impl View for Parameter {
    type V = ParameterView;

    open spec fn view(&self) -> ParameterView {
        ParameterView { name: self.name@, value: self.value@ }
    }
}

pub open spec fn params_view(v: Seq<Parameter>) -> Seq<ParameterView> {
    v.map_values(|p: Parameter| p@)
}

impl View for ParameterEvent {
    type V = ParameterEventView;

    open spec fn view(&self) -> ParameterEventView {
        ParameterEventView {
            stamp: self.stamp,
            node: self.node@,
            new_parameters: params_view(self.new_parameters@),
            changed_parameters: params_view(self.changed_parameters@),
            deleted_parameters: params_view(self.deleted_parameters@),
        }
    }
}

// ---------------------------------------------------------------------------
// What the encoder writes.

pub open spec fn bool_byte(x: bool) -> u8 {
    if x {
        1
    } else {
        0
    }
}

pub open spec fn bool_bytes(s: Seq<bool>) -> Seq<u8> {
    s.map_values(|x: bool| bool_byte(x))
}

pub open spec fn w_seq_len(b: Seq<u8>, n: nat) -> Seq<u8> {
    w_u32(w_align(b, 4), n as u32)
}

pub open spec fn w_octet_seq(b: Seq<u8>, s: Seq<u8>) -> Seq<u8> {
    w_seq_len(b, s.len()) + s
}

pub open spec fn w_bool_seq(b: Seq<u8>, s: Seq<bool>) -> Seq<u8> {
    w_seq_len(b, s.len()) + bool_bytes(s)
}

pub open spec fn w_u64_elems(b: Seq<u8>, s: Seq<u64>) -> Seq<u8>
    decreases s.len(),
{
    if s.len() == 0 {
        b
    } else {
        w_u64(w_u64_elems(b, s.drop_last()), s.last())
    }
}

pub open spec fn i64_as_bits(s: Seq<i64>) -> Seq<u64> {
    s.map_values(|x: i64| x as u64)
}

pub open spec fn w_u64_seq(b: Seq<u8>, s: Seq<u64>) -> Seq<u8> {
    if s.len() == 0 {
        w_seq_len(b, 0)
    } else {
        w_u64_elems(w_align(w_seq_len(b, s.len()), 8), s)
    }
}

pub open spec fn w_string_elems(b: Seq<u8>, s: Seq<Seq<u8>>) -> Seq<u8>
    decreases s.len(),
{
    if s.len() == 0 {
        b
    } else {
        w_cdr_string(w_string_elems(b, s.drop_last()), s.last())
    }
}

pub open spec fn w_string_seq(b: Seq<u8>, s: Seq<Seq<u8>>) -> Seq<u8> {
    w_string_elems(w_seq_len(b, s.len()), s)
}

/// The scalar head of a parameter value: type, bool, integer, double bits.
pub open spec fn w_value_head(b: Seq<u8>, v: ParameterValueView) -> Seq<u8> {
    let b1 = w_u8(w_u8(b, v.type_), bool_byte(v.bool_value));
    let b2 = w_u64(w_align(b1, 8), v.integer_value as u64);
    w_u64(w_align(b2, 8), v.double_value_bits)
}

#[verifier::opaque]
pub open spec fn w_value(b: Seq<u8>, v: ParameterValueView) -> Seq<u8> {
    let b1 = w_cdr_string(w_value_head(b, v), v.string_value);
    let b2 = w_octet_seq(b1, v.byte_array_value);
    let b3 = w_bool_seq(b2, v.bool_array_value);
    let b4 = w_u64_seq(b3, i64_as_bits(v.integer_array_value));
    let b5 = w_u64_seq(b4, v.double_array_value_bits);
    w_string_seq(b5, v.string_array_value)
}

pub open spec fn w_param(b: Seq<u8>, p: ParameterView) -> Seq<u8> {
    w_value(w_cdr_string(b, p.name), p.value)
}

pub open spec fn w_param_elems(b: Seq<u8>, s: Seq<ParameterView>) -> Seq<u8>
    decreases s.len(),
{
    if s.len() == 0 {
        b
    } else {
        w_param(w_param_elems(b, s.drop_last()), s.last())
    }
}

pub open spec fn w_param_seq(b: Seq<u8>, s: Seq<ParameterView>) -> Seq<u8> {
    w_param_elems(w_seq_len(b, s.len()), s)
}

#[verifier::opaque]
pub open spec fn w_event(m: ParameterEventView) -> Seq<u8> {
    let b1 = w_cdr_string(w_time(Seq::empty(), m.stamp), m.node);
    let b2 = w_param_seq(b1, m.new_parameters);
    let b3 = w_param_seq(b2, m.changed_parameters);
    w_param_seq(b3, m.deleted_parameters)
}

/// Every length fits the 32-bit length fields of the wire format.
pub open spec fn value_fits(v: ParameterValueView) -> bool {
    &&& cdr_string_fits(v.string_value)
    &&& v.byte_array_value.len() <= u32::MAX
    &&& v.bool_array_value.len() <= u32::MAX
    &&& v.integer_array_value.len() <= u32::MAX
    &&& v.double_array_value_bits.len() <= u32::MAX
    &&& v.string_array_value.len() <= u32::MAX
    &&& forall|i: int|
        0 <= i < v.string_array_value.len() ==> cdr_string_fits(#[trigger] v.string_array_value[i])
}

pub open spec fn param_fits(p: ParameterView) -> bool {
    cdr_string_fits(p.name) && value_fits(p.value)
}

pub open spec fn params_fit(s: Seq<ParameterView>) -> bool {
    s.len() <= u32::MAX && forall|i: int| 0 <= i < s.len() ==> param_fits(#[trigger] s[i])
}

pub open spec fn event_fits(m: ParameterEventView) -> bool {
    &&& cdr_string_fits(m.node)
    &&& params_fit(m.new_parameters)
    &&& params_fit(m.changed_parameters)
    &&& params_fit(m.deleted_parameters)
}

pub open spec fn spec_encode_parameter_event(m: ParameterEventView) -> Result<
    Seq<u8>,
    SerializeError,
> {
    if event_fits(m) {
        Ok(w_event(m))
    } else {
        Err(SerializeError::BufferOverflow)
    }
}

// ---------------------------------------------------------------------------
// What the decoder reads.

pub open spec fn sp_seq_len(d: Seq<u8>, p: int) -> Result<(nat, int), DeserializeError> {
    match sp_align(d, p, 4) {
        Err(e) => Err(e),
        Ok(p1) => match sp_u32(d, p1) {
            Err(e) => Err(e),
            Ok((n, p2)) => Ok((n as nat, p2)),
        },
    }
}

pub open spec fn sp_octet_seq(d: Seq<u8>, p: int) -> Result<(Seq<u8>, int), DeserializeError> {
    match sp_seq_len(d, p) {
        Err(e) => Err(e),
        Ok((n, p1)) => if n == 0 {
            Ok((Seq::empty(), p1))
        } else {
            sp_bytes(d, p1, n as int)
        },
    }
}

pub open spec fn nonzero_bools(s: Seq<u8>) -> Seq<bool> {
    s.map_values(|x: u8| x != 0)
}

pub open spec fn sp_bool_seq(d: Seq<u8>, p: int) -> Result<(Seq<bool>, int), DeserializeError> {
    match sp_octet_seq(d, p) {
        Err(e) => Err(e),
        Ok((s, p1)) => Ok((nonzero_bools(s), p1)),
    }
}

pub open spec fn sp_u64_elems(d: Seq<u8>, p: int, n: nat) -> Result<
    (Seq<u64>, int),
    DeserializeError,
>
    decreases n,
{
    if n == 0 {
        Ok((Seq::empty(), p))
    } else {
        match sp_u64_elems(d, p, (n - 1) as nat) {
            Err(e) => Err(e),
            Ok((s, p1)) => match sp_u64(d, p1) {
                Err(e) => Err(e),
                Ok((v, p2)) => Ok((s.push(v), p2)),
            },
        }
    }
}

pub open spec fn sp_u64_seq(d: Seq<u8>, p: int) -> Result<(Seq<u64>, int), DeserializeError> {
    match sp_seq_len(d, p) {
        Err(e) => Err(e),
        Ok((n, p1)) => if n == 0 {
            Ok((Seq::empty(), p1))
        } else {
            match sp_align(d, p1, 8) {
                Err(e) => Err(e),
                Ok(p2) => sp_u64_elems(d, p2, n),
            }
        },
    }
}

pub open spec fn bits_as_i64(s: Seq<u64>) -> Seq<i64> {
    s.map_values(|x: u64| x as i64)
}

pub open spec fn sp_i64_seq(d: Seq<u8>, p: int) -> Result<(Seq<i64>, int), DeserializeError> {
    match sp_u64_seq(d, p) {
        Err(e) => Err(e),
        Ok((s, p1)) => Ok((bits_as_i64(s), p1)),
    }
}

pub open spec fn sp_string_elems(d: Seq<u8>, p: int, n: nat) -> Result<
    (Seq<Seq<u8>>, int),
    DeserializeError,
>
    decreases n,
{
    if n == 0 {
        Ok((Seq::empty(), p))
    } else {
        match sp_string_elems(d, p, (n - 1) as nat) {
            Err(e) => Err(e),
            Ok((s, p1)) => match sp_cdr_string(d, p1) {
                Err(e) => Err(e),
                Ok((v, p2)) => Ok((s.push(v), p2)),
            },
        }
    }
}

pub open spec fn sp_string_seq(d: Seq<u8>, p: int) -> Result<
    (Seq<Seq<u8>>, int),
    DeserializeError,
> {
    match sp_seq_len(d, p) {
        Err(e) => Err(e),
        Ok((n, p1)) => sp_string_elems(d, p1, n),
    }
}

pub struct ValueHead {
    pub type_: u8,
    pub bool_value: bool,
    pub integer_value: i64,
    pub double_value_bits: u64,
}

pub open spec fn sp_value_head(d: Seq<u8>, p: int) -> Result<(ValueHead, int), DeserializeError> {
    match sp_u8(d, p) {
        Err(e) => Err(e),
        Ok((t, p1)) => match sp_u8(d, p1) {
            Err(e) => Err(e),
            Ok((bv, p2)) => match sp_align(d, p2, 8) {
                Err(e) => Err(e),
                Ok(p3) => match sp_u64(d, p3) {
                    Err(e) => Err(e),
                    Ok((iv, p4)) => match sp_align(d, p4, 8) {
                        Err(e) => Err(e),
                        Ok(p5) => match sp_u64(d, p5) {
                            Err(e) => Err(e),
                            Ok((dv, p6)) => Ok(
                                (
                                    ValueHead {
                                        type_: t,
                                        bool_value: bv != 0,
                                        integer_value: iv as i64,
                                        double_value_bits: dv,
                                    },
                                    p6,
                                ),
                            ),
                        },
                    },
                },
            },
        },
    }
}

#[verifier::opaque]
pub open spec fn sp_value(d: Seq<u8>, p: int) -> Result<
    (ParameterValueView, int),
    DeserializeError,
> {
    match sp_value_head(d, p) {
        Err(e) => Err(e),
        Ok((h, p1)) => match sp_cdr_string(d, p1) {
            Err(e) => Err(e),
            Ok((sv, p2)) => match sp_octet_seq(d, p2) {
                Err(e) => Err(e),
                Ok((ov, p3)) => match sp_bool_seq(d, p3) {
                    Err(e) => Err(e),
                    Ok((bv, p4)) => match sp_i64_seq(d, p4) {
                        Err(e) => Err(e),
                        Ok((iv, p5)) => match sp_u64_seq(d, p5) {
                            Err(e) => Err(e),
                            Ok((dv, p6)) => match sp_string_seq(d, p6) {
                                Err(e) => Err(e),
                                Ok((strv, p7)) => Ok(
                                    (
                                        ParameterValueView {
                                            type_: h.type_,
                                            bool_value: h.bool_value,
                                            integer_value: h.integer_value,
                                            double_value_bits: h.double_value_bits,
                                            string_value: sv,
                                            byte_array_value: ov,
                                            bool_array_value: bv,
                                            integer_array_value: iv,
                                            double_array_value_bits: dv,
                                            string_array_value: strv,
                                        },
                                        p7,
                                    ),
                                ),
                            },
                        },
                    },
                },
            },
        },
    }
}

pub open spec fn sp_param(d: Seq<u8>, p: int) -> Result<(ParameterView, int), DeserializeError> {
    match sp_cdr_string(d, p) {
        Err(e) => Err(e),
        Ok((name, p1)) => match sp_value(d, p1) {
            Err(e) => Err(e),
            Ok((value, p2)) => Ok((ParameterView { name, value }, p2)),
        },
    }
}

pub open spec fn sp_param_elems(d: Seq<u8>, p: int, n: nat) -> Result<
    (Seq<ParameterView>, int),
    DeserializeError,
>
    decreases n,
{
    if n == 0 {
        Ok((Seq::empty(), p))
    } else {
        match sp_param_elems(d, p, (n - 1) as nat) {
            Err(e) => Err(e),
            Ok((s, p1)) => match sp_param(d, p1) {
                Err(e) => Err(e),
                Ok((v, p2)) => Ok((s.push(v), p2)),
            },
        }
    }
}

pub open spec fn sp_param_seq(d: Seq<u8>, p: int) -> Result<
    (Seq<ParameterView>, int),
    DeserializeError,
> {
    match sp_seq_len(d, p) {
        Err(e) => Err(e),
        Ok((n, p1)) => if n == 0 {
            Ok((Seq::empty(), p1))
        } else {
            sp_param_elems(d, p1, n)
        },
    }
}

pub open spec fn spec_decode_parameter_event(d: Seq<u8>) -> Result<
    ParameterEventView,
    DeserializeError,
> {
    match sp_time(d, 0) {
        Err(e) => Err(e),
        Ok((stamp, p1)) => match sp_cdr_string(d, p1) {
            Err(e) => Err(e),
            Ok((node, p2)) => match sp_param_seq(d, p2) {
                Err(e) => Err(e),
                Ok((np, p3)) => match sp_param_seq(d, p3) {
                    Err(e) => Err(e),
                    Ok((cp, p4)) => match sp_param_seq(d, p4) {
                        Err(e) => Err(e),
                        Ok((dp, _)) => Ok(
                            ParameterEventView {
                                stamp,
                                node,
                                new_parameters: np,
                                changed_parameters: cp,
                                deleted_parameters: dp,
                            },
                        ),
                    },
                },
            },
        },
    }
}

// ---------------------------------------------------------------------------
// Encoder.

fn write_seq_len(writer: &mut CdrWriter, n: usize) -> (r: Result<(), SerializeError>)
    ensures
        r is Ok <==> n <= u32::MAX,
        r is Err ==> r == Err::<(), SerializeError>(SerializeError::BufferOverflow),
        r is Ok ==> final(writer)@ == w_seq_len(old(writer)@, n as nat),
{
    writer.align(4);
    if n > u32::MAX as usize {
        return Err(SerializeError::BufferOverflow);
    }
    writer.write_u32(n as u32);
    Ok(())
}

pub fn write_octet_sequence(writer: &mut CdrWriter, seq: &[u8]) -> (r: Result<(), SerializeError>)
    ensures
        r is Ok <==> seq@.len() <= u32::MAX,
        r is Err ==> r == Err::<(), SerializeError>(SerializeError::BufferOverflow),
        r is Ok ==> final(writer)@ == w_octet_seq(old(writer)@, seq@),
{
    write_seq_len(writer, seq.len())?;
    if seq.len() == 0 {
        assert(writer@ + seq@ =~= writer@);
        return Ok(());
    }
    writer.write_bytes(seq);
    Ok(())
}

pub fn write_bool_sequence(writer: &mut CdrWriter, seq: &[bool]) -> (r: Result<(), SerializeError>)
    ensures
        r is Ok <==> seq@.len() <= u32::MAX,
        r is Err ==> r == Err::<(), SerializeError>(SerializeError::BufferOverflow),
        r is Ok ==> final(writer)@ == w_bool_seq(old(writer)@, seq@),
{
    write_seq_len(writer, seq.len())?;
    let ghost start = writer@;
    let mut i: usize = 0;
    while i < seq.len()
        invariant
            i <= seq@.len(),
            writer@ =~= start + bool_bytes(seq@.take(i as int)),
        decreases seq@.len() - i,
    {
        let byte: u8 = if seq[i] {
            1
        } else {
            0
        };
        writer.write_u8(byte);
        i = i + 1;
        assert(bool_bytes(seq@.take(i as int)) =~= bool_bytes(seq@.take(i - 1)).push(byte));
    }
    assert(seq@.take(seq@.len() as int) =~= seq@);
    Ok(())
}

fn write_u64_elems(writer: &mut CdrWriter, seq: &[u64])
    ensures
        final(writer)@ == w_u64_elems(old(writer)@, seq@),
{
    let ghost start = writer@;
    let mut i: usize = 0;
    while i < seq.len()
        invariant
            i <= seq@.len(),
            writer@ == w_u64_elems(start, seq@.take(i as int)),
        decreases seq@.len() - i,
    {
        writer.write_u64(seq[i]);
        i = i + 1;
        assert(seq@.take(i as int).drop_last() =~= seq@.take(i - 1));
    }
    assert(seq@.take(seq@.len() as int) =~= seq@);
}

pub fn write_double_sequence(writer: &mut CdrWriter, seq: &[u64]) -> (r: Result<
    (),
    SerializeError,
>)
    ensures
        r is Ok <==> seq@.len() <= u32::MAX,
        r is Err ==> r == Err::<(), SerializeError>(SerializeError::BufferOverflow),
        r is Ok ==> final(writer)@ == w_u64_seq(old(writer)@, seq@),
{
    write_seq_len(writer, seq.len())?;
    if seq.len() == 0 {
        return Ok(());
    }
    writer.align(8);
    write_u64_elems(writer, seq);
    Ok(())
}

pub fn write_int64_sequence(writer: &mut CdrWriter, seq: &[i64]) -> (r: Result<
    (),
    SerializeError,
>)
    ensures
        r is Ok <==> seq@.len() <= u32::MAX,
        r is Err ==> r == Err::<(), SerializeError>(SerializeError::BufferOverflow),
        r is Ok ==> final(writer)@ == w_u64_seq(old(writer)@, i64_as_bits(seq@)),
{
    write_seq_len(writer, seq.len())?;
    if seq.len() == 0 {
        return Ok(());
    }
    writer.align(8);
    let ghost start = writer@;
    let mut i: usize = 0;
    while i < seq.len()
        invariant
            i <= seq@.len(),
            writer@ == w_u64_elems(start, i64_as_bits(seq@.take(i as int))),
        decreases seq@.len() - i,
    {
        writer.write_i64(seq[i]);
        i = i + 1;
        assert(i64_as_bits(seq@.take(i as int)).drop_last() =~= i64_as_bits(seq@.take(i - 1)));
    }
    assert(seq@.take(seq@.len() as int) =~= seq@);
    Ok(())
}

pub fn write_string_sequence(writer: &mut CdrWriter, seq: &[Vec<u8>]) -> (r: Result<
    (),
    SerializeError,
>)
    ensures
        r is Ok <==> (seq@.len() <= u32::MAX && forall|i: int|
            0 <= i < seq@.len() ==> cdr_string_fits(#[trigger] seq@[i]@)),
        r is Err ==> r == Err::<(), SerializeError>(SerializeError::BufferOverflow),
        r is Ok ==> final(writer)@ == w_string_seq(old(writer)@, strings_view(seq@)),
{
    write_seq_len(writer, seq.len())?;
    let ghost start = writer@;
    let mut i: usize = 0;
    while i < seq.len()
        invariant
            i <= seq@.len(),
            seq@.len() <= u32::MAX,
            writer@ == w_string_elems(start, strings_view(seq@.take(i as int))),
            forall|j: int| 0 <= j < i ==> cdr_string_fits(#[trigger] seq@[j]@),
        decreases seq@.len() - i,
    {
        write_cdr_string(writer, seq[i].as_slice())?;
        i = i + 1;
        assert(strings_view(seq@.take(i as int)).drop_last() =~= strings_view(seq@.take(i - 1)));
    }
    assert(seq@.take(seq@.len() as int) =~= seq@);
    Ok(())
}

pub fn write_parameter_value(writer: &mut CdrWriter, value: &ParameterValue) -> (r: Result<
    (),
    SerializeError,
>)
    ensures
        r is Ok <==> value_fits(value@),
        r is Err ==> r == Err::<(), SerializeError>(SerializeError::BufferOverflow),
        r is Ok ==> final(writer)@ == w_value(old(writer)@, value@),
{
    proof {
        reveal(w_value);
    }
    writer.write_u8(value.type_);
    writer.write_u8(if value.bool_value {
        1
    } else {
        0
    });
    writer.align(8);
    writer.write_i64(value.integer_value);
    writer.align(8);
    writer.write_u64(value.double_value_bits);
    write_cdr_string(writer, value.string_value.as_slice())?;
    write_octet_sequence(writer, value.byte_array_value.as_slice())?;
    write_bool_sequence(writer, value.bool_array_value.as_slice())?;
    write_int64_sequence(writer, value.integer_array_value.as_slice())?;
    write_double_sequence(writer, value.double_array_value_bits.as_slice())?;
    let r = write_string_sequence(writer, value.string_array_value.as_slice());
    proof {
        assert forall|i: int| 0 <= i < value.string_array_value@.len() implies cdr_string_fits(
            #[trigger] value.string_array_value@[i]@,
        ) == cdr_string_fits(strings_view(value.string_array_value@)[i]) by {}
    }
    r
}

pub fn write_parameter_sequence(writer: &mut CdrWriter, seq: &[Parameter]) -> (r: Result<
    (),
    SerializeError,
>)
    ensures
        r is Ok <==> params_fit(params_view(seq@)),
        r is Err ==> r == Err::<(), SerializeError>(SerializeError::BufferOverflow),
        r is Ok ==> final(writer)@ == w_param_seq(old(writer)@, params_view(seq@)),
{
    write_seq_len(writer, seq.len())?;
    let ghost start = writer@;
    let mut i: usize = 0;
    while i < seq.len()
        invariant
            i <= seq@.len(),
            seq@.len() <= u32::MAX,
            writer@ == w_param_elems(start, params_view(seq@.take(i as int))),
            forall|j: int| 0 <= j < i ==> param_fits(#[trigger] seq@[j]@),
        decreases seq@.len() - i,
    {
        let param = &seq[i];
        proof {
            assert(params_view(seq@)[i as int] == seq@[i as int]@);
        }
        write_cdr_string(writer, param.name.as_slice())?;
        write_parameter_value(writer, &param.value)?;
        i = i + 1;
        assert(params_view(seq@.take(i as int)).drop_last() =~= params_view(seq@.take(i - 1)));
    }
    assert(seq@.take(seq@.len() as int) =~= seq@);
    proof {
        assert forall|j: int| 0 <= j < params_view(seq@).len() implies param_fits(
            #[trigger] params_view(seq@)[j],
        ) by {
            assert(params_view(seq@)[j] == seq@[j]@);
        }
    }
    Ok(())
}

pub fn encode_parameter_event(event: &ParameterEvent) -> (r: Result<BytePayload, ApiError>)
    ensures
        match spec_encode_parameter_event(event@) {
            Ok(d) => r is Ok && r->Ok_0.data@ == d,
            Err(e) => r == Err::<BytePayload, ApiError>(spec_map_serialize_error(e)),
        },
{
    proof {
        reveal(w_event);
    }
    let mut writer = CdrWriter::new();
    let _ = write_time(&mut writer, &event.stamp);
    if let Err(e) = write_cdr_string(&mut writer, event.node.as_slice()) {
        return Err(map_serialize_error(e));
    }
    if let Err(e) = write_parameter_sequence(&mut writer, event.new_parameters.as_slice()) {
        return Err(map_serialize_error(e));
    }
    if let Err(e) = write_parameter_sequence(&mut writer, event.changed_parameters.as_slice()) {
        return Err(map_serialize_error(e));
    }
    if let Err(e) = write_parameter_sequence(&mut writer, event.deleted_parameters.as_slice()) {
        return Err(map_serialize_error(e));
    }
    Ok(writer.into_payload())
}

// ---------------------------------------------------------------------------
// Decoder.

proof fn lemma_u64_elems_err(d: Seq<u8>, p: int, k: nat, n: nat)
    requires
        k <= n,
        sp_u64_elems(d, p, k) is Err,
    ensures
        sp_u64_elems(d, p, n) == sp_u64_elems(d, p, k),
    decreases n,
{
    if n > k {
        lemma_u64_elems_err(d, p, k, (n - 1) as nat);
    }
}

proof fn lemma_string_elems_err(d: Seq<u8>, p: int, k: nat, n: nat)
    requires
        k <= n,
        sp_string_elems(d, p, k) is Err,
    ensures
        sp_string_elems(d, p, n) == sp_string_elems(d, p, k),
    decreases n,
{
    if n > k {
        lemma_string_elems_err(d, p, k, (n - 1) as nat);
    }
}

proof fn lemma_param_elems_err(d: Seq<u8>, p: int, k: nat, n: nat)
    requires
        k <= n,
        sp_param_elems(d, p, k) is Err,
    ensures
        sp_param_elems(d, p, n) == sp_param_elems(d, p, k),
    decreases n,
{
    if n > k {
        lemma_param_elems_err(d, p, k, (n - 1) as nat);
    }
}

fn read_seq_len(cursor: &mut CdrCursor) -> (r: Result<usize, DeserializeError>)
    ensures
        final(cursor).bytes() == old(cursor).bytes(),
        match sp_seq_len(old(cursor).bytes(), old(cursor).pos()) {
            Ok((n, q)) => r is Ok && r->Ok_0 == n && final(cursor).pos() == q,
            Err(e) => r == Err::<usize, DeserializeError>(e),
        },
{
    cursor.align(4)?;
    let n = cursor.read_u32()?;
    Ok(n as usize)
}

pub fn read_octet_sequence(cursor: &mut CdrCursor) -> (r: Result<Vec<u8>, ApiError>)
    ensures
        final(cursor).bytes() == old(cursor).bytes(),
        match sp_octet_seq(old(cursor).bytes(), old(cursor).pos()) {
            Ok((s, q)) => r is Ok && r->Ok_0@ == s && final(cursor).pos() == q,
            Err(e) => r == Err::<Vec<u8>, ApiError>(spec_map_deserialize_error(e)),
        },
{
    let len = match read_seq_len(cursor) {
        Ok(n) => n,
        Err(e) => {
            return Err(map_deserialize_error(e));
        },
    };
    if len == 0 {
        return Ok(Vec::new());
    }
    match cursor.read_bytes(len) {
        Ok(bytes) => Ok(vstd::slice::slice_to_vec(bytes)),
        Err(e) => Err(map_deserialize_error(e)),
    }
}

pub fn read_bool_sequence(cursor: &mut CdrCursor) -> (r: Result<Vec<bool>, ApiError>)
    ensures
        final(cursor).bytes() == old(cursor).bytes(),
        match sp_bool_seq(old(cursor).bytes(), old(cursor).pos()) {
            Ok((s, q)) => r is Ok && r->Ok_0@ == s && final(cursor).pos() == q,
            Err(e) => r == Err::<Vec<bool>, ApiError>(spec_map_deserialize_error(e)),
        },
{
    let bytes = read_octet_sequence(cursor)?;
    let mut out: Vec<bool> = Vec::new();
    let mut i: usize = 0;
    while i < bytes.len()
        invariant
            i <= bytes@.len(),
            out@ =~= nonzero_bools(bytes@.take(i as int)),
        decreases bytes@.len() - i,
    {
        out.push(bytes[i] != 0);
        i = i + 1;
        assert(nonzero_bools(bytes@.take(i as int)) =~= nonzero_bools(bytes@.take(i - 1)).push(
            bytes@[i - 1] != 0,
        ));
    }
    assert(bytes@.take(bytes@.len() as int) =~= bytes@);
    Ok(out)
}

fn read_u64_elems(cursor: &mut CdrCursor, n: usize) -> (r: Result<Vec<u64>, DeserializeError>)
    ensures
        final(cursor).bytes() == old(cursor).bytes(),
        match sp_u64_elems(old(cursor).bytes(), old(cursor).pos(), n as nat) {
            Ok((s, q)) => r is Ok && r->Ok_0@ == s && final(cursor).pos() == q,
            Err(e) => r == Err::<Vec<u64>, DeserializeError>(e),
        },
{
    let ghost d = cursor.bytes();
    let ghost p0 = cursor.pos();
    let mut out: Vec<u64> = Vec::new();
    let mut i: usize = 0;
    while i < n
        invariant
            i <= n,
            cursor.bytes() == d,
            d == old(cursor).bytes(),
            p0 == old(cursor).pos(),
            sp_u64_elems(d, p0, i as nat) == Ok::<(Seq<u64>, int), DeserializeError>(
                (out@, cursor.pos()),
            ),
        decreases n - i,
    {
        let v = match cursor.read_u64() {
            Ok(v) => v,
            Err(e) => {
                proof {
                    lemma_u64_elems_err(d, p0, (i + 1) as nat, n as nat);
                }
                return Err(e);
            },
        };
        out.push(v);
        i = i + 1;
    }
    Ok(out)
}

pub fn read_double_sequence(cursor: &mut CdrCursor) -> (r: Result<Vec<u64>, ApiError>)
    ensures
        final(cursor).bytes() == old(cursor).bytes(),
        match sp_u64_seq(old(cursor).bytes(), old(cursor).pos()) {
            Ok((s, q)) => r is Ok && r->Ok_0@ == s && final(cursor).pos() == q,
            Err(e) => r == Err::<Vec<u64>, ApiError>(spec_map_deserialize_error(e)),
        },
{
    let len = match read_seq_len(cursor) {
        Ok(n) => n,
        Err(e) => {
            return Err(map_deserialize_error(e));
        },
    };
    if len == 0 {
        return Ok(Vec::new());
    }
    if let Err(e) = cursor.align(8) {
        return Err(map_deserialize_error(e));
    }
    match read_u64_elems(cursor, len) {
        Ok(v) => Ok(v),
        Err(e) => Err(map_deserialize_error(e)),
    }
}

pub fn read_int64_sequence(cursor: &mut CdrCursor) -> (r: Result<Vec<i64>, ApiError>)
    ensures
        final(cursor).bytes() == old(cursor).bytes(),
        match sp_i64_seq(old(cursor).bytes(), old(cursor).pos()) {
            Ok((s, q)) => r is Ok && r->Ok_0@ == s && final(cursor).pos() == q,
            Err(e) => r == Err::<Vec<i64>, ApiError>(spec_map_deserialize_error(e)),
        },
{
    let bits = read_double_sequence(cursor)?;
    let mut out: Vec<i64> = Vec::new();
    let mut i: usize = 0;
    while i < bits.len()
        invariant
            i <= bits@.len(),
            out@ =~= bits_as_i64(bits@.take(i as int)),
        decreases bits@.len() - i,
    {
        out.push(bits[i] as i64);
        i = i + 1;
        assert(bits_as_i64(bits@.take(i as int)) =~= bits_as_i64(bits@.take(i - 1)).push(
            bits@[i - 1] as i64,
        ));
    }
    assert(bits@.take(bits@.len() as int) =~= bits@);
    Ok(out)
}

pub fn read_string_sequence(cursor: &mut CdrCursor) -> (r: Result<Vec<Vec<u8>>, ApiError>)
    ensures
        final(cursor).bytes() == old(cursor).bytes(),
        match sp_string_seq(old(cursor).bytes(), old(cursor).pos()) {
            Ok((s, q)) => r is Ok && strings_view(r->Ok_0@) == s && final(cursor).pos() == q,
            Err(e) => r == Err::<Vec<Vec<u8>>, ApiError>(spec_map_deserialize_error(e)),
        },
{
    let len = match read_seq_len(cursor) {
        Ok(n) => n,
        Err(e) => {
            return Err(map_deserialize_error(e));
        },
    };
    let ghost d = cursor.bytes();
    let ghost p0 = cursor.pos();
    let mut out: Vec<Vec<u8>> = Vec::new();
    assert(strings_view(out@) =~= Seq::<Seq<u8>>::empty());
    let mut i: usize = 0;
    while i < len
        invariant
            i <= len,
            cursor.bytes() == d,
            d == old(cursor).bytes(),
            sp_seq_len(d, old(cursor).pos()) == Ok::<(nat, int), DeserializeError>(
                (len as nat, p0),
            ),
            sp_string_elems(d, p0, i as nat) == Ok::<(Seq<Seq<u8>>, int), DeserializeError>(
                (strings_view(out@), cursor.pos()),
            ),
        decreases len - i,
    {
        let s = match read_cdr_string(cursor) {
            Ok(s) => s,
            Err(e) => {
                proof {
                    lemma_string_elems_err(d, p0, (i + 1) as nat, len as nat);
                }
                return Err(map_deserialize_error(e));
            },
        };
        let ghost before = out@;
        out.push(s);
        i = i + 1;
        assert(strings_view(out@) =~= strings_view(before).push(s@));
    }
    Ok(out)
}

fn read_value_head(cursor: &mut CdrCursor) -> (r: Result<ValueHead, DeserializeError>)
    ensures
        final(cursor).bytes() == old(cursor).bytes(),
        match sp_value_head(old(cursor).bytes(), old(cursor).pos()) {
            Ok((h, q)) => r == Ok::<ValueHead, DeserializeError>(h) && final(cursor).pos() == q,
            Err(e) => r == Err::<ValueHead, DeserializeError>(e),
        },
{
    let type_ = cursor.read_u8()?;
    let bool_value = cursor.read_u8()? != 0;
    cursor.align(8)?;
    let integer_value = cursor.read_i64()?;
    cursor.align(8)?;
    let double_value_bits = cursor.read_u64()?;
    Ok(ValueHead { type_, bool_value, integer_value, double_value_bits })
}

pub fn read_parameter_value(cursor: &mut CdrCursor) -> (r: Result<ParameterValue, ApiError>)
    ensures
        final(cursor).bytes() == old(cursor).bytes(),
        match sp_value(old(cursor).bytes(), old(cursor).pos()) {
            Ok((v, q)) => r is Ok && r->Ok_0@ == v && final(cursor).pos() == q,
            Err(e) => r == Err::<ParameterValue, ApiError>(spec_map_deserialize_error(e)),
        },
{
    proof {
        reveal(sp_value);
    }
    let head = match read_value_head(cursor) {
        Ok(h) => h,
        Err(e) => {
            return Err(map_deserialize_error(e));
        },
    };
    let string_value = match read_cdr_string(cursor) {
        Ok(s) => s,
        Err(e) => {
            return Err(map_deserialize_error(e));
        },
    };
    let byte_array_value = read_octet_sequence(cursor)?;
    let bool_array_value = read_bool_sequence(cursor)?;
    let integer_array_value = read_int64_sequence(cursor)?;
    let double_array_value_bits = read_double_sequence(cursor)?;
    let string_array_value = read_string_sequence(cursor)?;
    Ok(
        ParameterValue {
            type_: head.type_,
            bool_value: head.bool_value,
            integer_value: head.integer_value,
            double_value_bits: head.double_value_bits,
            string_value,
            byte_array_value,
            bool_array_value,
            integer_array_value,
            double_array_value_bits,
            string_array_value,
        },
    )
}

pub fn read_parameter_sequence(cursor: &mut CdrCursor) -> (r: Result<Vec<Parameter>, ApiError>)
    ensures
        final(cursor).bytes() == old(cursor).bytes(),
        match sp_param_seq(old(cursor).bytes(), old(cursor).pos()) {
            Ok((s, q)) => r is Ok && params_view(r->Ok_0@) == s && final(cursor).pos() == q,
            Err(e) => r == Err::<Vec<Parameter>, ApiError>(spec_map_deserialize_error(e)),
        },
{
    let len = match read_seq_len(cursor) {
        Ok(n) => n,
        Err(e) => {
            return Err(map_deserialize_error(e));
        },
    };
    if len == 0 {
        return Ok(Vec::new());
    }
    let ghost d = cursor.bytes();
    let ghost p0 = cursor.pos();
    let mut out: Vec<Parameter> = Vec::new();
    assert(params_view(out@) =~= Seq::<ParameterView>::empty());
    let mut i: usize = 0;
    while i < len
        invariant
            i <= len,
            cursor.bytes() == d,
            d == old(cursor).bytes(),
            sp_seq_len(d, old(cursor).pos()) == Ok::<(nat, int), DeserializeError>(
                (len as nat, p0),
            ),
            sp_param_elems(d, p0, i as nat) == Ok::<(Seq<ParameterView>, int), DeserializeError>(
                (params_view(out@), cursor.pos()),
            ),
        decreases len - i,
    {
        let name = match read_cdr_string(cursor) {
            Ok(s) => s,
            Err(e) => {
                proof {
                    lemma_param_elems_err(d, p0, (i + 1) as nat, len as nat);
                }
                return Err(map_deserialize_error(e));
            },
        };
        let value = match read_parameter_value(cursor) {
            Ok(v) => v,
            Err(e) => {
                proof {
                    lemma_param_elems_err(d, p0, (i + 1) as nat, len as nat);
                }
                return Err(e);
            },
        };
        let ghost before = out@;
        let param = Parameter { name, value };
        out.push(param);
        i = i + 1;
        assert(params_view(out@) =~= params_view(before).push(param@));
    }
    Ok(out)
}

pub fn decode_parameter_event(data: &[u8]) -> (r: Result<ParameterEvent, ApiError>)
    ensures
        match spec_decode_parameter_event(data@) {
            Ok(m) => r is Ok && r->Ok_0@ == m,
            Err(e) => r == Err::<ParameterEvent, ApiError>(spec_map_deserialize_error(e)),
        },
{
    let mut cursor = CdrCursor::new(data);
    let mut stamp = BuiltinTime { sec: 0, nanosec: 0 };
    if let Err(e) = read_time(&mut cursor, &mut stamp) {
        return Err(map_deserialize_error(e));
    }
    let node = match read_cdr_string(&mut cursor) {
        Ok(s) => s,
        Err(e) => {
            return Err(map_deserialize_error(e));
        },
    };
    let new_parameters = read_parameter_sequence(&mut cursor)?;
    let changed_parameters = read_parameter_sequence(&mut cursor)?;
    let deleted_parameters = read_parameter_sequence(&mut cursor)?;
    Ok(ParameterEvent { stamp, node, new_parameters, changed_parameters, deleted_parameters })
}

// ---------------------------------------------------------------------------
// Decoding what the encoder wrote.

proof fn lemma_read_seq_len(b: Seq<u8>, n: nat, d: Seq<u8>)
    requires
        is_prefix(w_seq_len(b, n), d),
        n <= u32::MAX,
        d.len() + 8 <= usize::MAX,
    ensures
        sp_seq_len(d, b.len() as int) == Ok::<(nat, int), DeserializeError>(
            (n, w_seq_len(b, n).len() as int),
        ),
        is_prefix(b, d),
{
    lemma_read_u32(w_align(b, 4), n as u32, d);
    lemma_read_align(b, 4, d);
}

proof fn lemma_read_octet_seq(b: Seq<u8>, s: Seq<u8>, d: Seq<u8>)
    requires
        is_prefix(w_octet_seq(b, s), d),
        s.len() <= u32::MAX,
        d.len() + 8 <= usize::MAX,
    ensures
        sp_octet_seq(d, b.len() as int) == Ok::<(Seq<u8>, int), DeserializeError>(
            (s, w_octet_seq(b, s).len() as int),
        ),
        is_prefix(b, d),
{
    lemma_read_bytes(w_seq_len(b, s.len()), s, d);
    lemma_read_seq_len(b, s.len(), d);
    if s.len() == 0 {
        assert(s =~= Seq::<u8>::empty());
    }
}

proof fn lemma_read_bool_seq(b: Seq<u8>, s: Seq<bool>, d: Seq<u8>)
    requires
        is_prefix(w_bool_seq(b, s), d),
        s.len() <= u32::MAX,
        d.len() + 8 <= usize::MAX,
    ensures
        sp_bool_seq(d, b.len() as int) == Ok::<(Seq<bool>, int), DeserializeError>(
            (s, w_bool_seq(b, s).len() as int),
        ),
        is_prefix(b, d),
{
    assert(w_bool_seq(b, s) == w_octet_seq(b, bool_bytes(s)));
    lemma_read_octet_seq(b, bool_bytes(s), d);
    assert(nonzero_bools(bool_bytes(s)) =~= s);
}

proof fn lemma_read_u64_elems(b: Seq<u8>, s: Seq<u64>, d: Seq<u8>)
    requires
        is_prefix(w_u64_elems(b, s), d),
    ensures
        sp_u64_elems(d, b.len() as int, s.len()) == Ok::<(Seq<u64>, int), DeserializeError>(
            (s, w_u64_elems(b, s).len() as int),
        ),
        is_prefix(b, d),
    decreases s.len(),
{
    if s.len() > 0 {
        let s1 = s.drop_last();
        lemma_read_u64(w_u64_elems(b, s1), s.last(), d);
        lemma_read_u64_elems(b, s1, d);
        assert(s1.push(s.last()) =~= s);
    } else {
        assert(s =~= Seq::<u64>::empty());
    }
}

proof fn lemma_read_u64_seq(b: Seq<u8>, s: Seq<u64>, d: Seq<u8>)
    requires
        is_prefix(w_u64_seq(b, s), d),
        s.len() <= u32::MAX,
        d.len() + 8 <= usize::MAX,
    ensures
        sp_u64_seq(d, b.len() as int) == Ok::<(Seq<u64>, int), DeserializeError>(
            (s, w_u64_seq(b, s).len() as int),
        ),
        is_prefix(b, d),
{
    if s.len() == 0 {
        lemma_read_seq_len(b, 0, d);
        assert(s =~= Seq::<u64>::empty());
    } else {
        let b1 = w_seq_len(b, s.len());
        lemma_read_u64_elems(w_align(b1, 8), s, d);
        lemma_read_align(b1, 8, d);
        lemma_read_seq_len(b, s.len(), d);
    }
}

proof fn lemma_read_i64_seq(b: Seq<u8>, s: Seq<i64>, d: Seq<u8>)
    requires
        is_prefix(w_u64_seq(b, i64_as_bits(s)), d),
        s.len() <= u32::MAX,
        d.len() + 8 <= usize::MAX,
    ensures
        sp_i64_seq(d, b.len() as int) == Ok::<(Seq<i64>, int), DeserializeError>(
            (s, w_u64_seq(b, i64_as_bits(s)).len() as int),
        ),
        is_prefix(b, d),
{
    lemma_read_u64_seq(b, i64_as_bits(s), d);
    assert forall|i: int| 0 <= i < s.len() implies #[trigger] bits_as_i64(i64_as_bits(s))[i]
        == s[i] by {
        lemma_i64_roundtrip(s[i]);
    }
    assert(bits_as_i64(i64_as_bits(s)) =~= s);
}

proof fn lemma_read_string_elems(b: Seq<u8>, s: Seq<Seq<u8>>, d: Seq<u8>)
    requires
        is_prefix(w_string_elems(b, s), d),
        forall|i: int| 0 <= i < s.len() ==> cdr_string_fits(#[trigger] s[i]),
        d.len() + 8 <= usize::MAX,
    ensures
        sp_string_elems(d, b.len() as int, s.len()) == Ok::<
            (Seq<Seq<u8>>, int),
            DeserializeError,
        >((s, w_string_elems(b, s).len() as int)),
        is_prefix(b, d),
    decreases s.len(),
{
    if s.len() > 0 {
        let s1 = s.drop_last();
        assert(cdr_string_fits(s[s.len() - 1]));
        lemma_read_cdr_string(w_string_elems(b, s1), s.last(), d);
        assert forall|i: int| 0 <= i < s1.len() implies cdr_string_fits(#[trigger] s1[i]) by {
            assert(s1[i] == s[i]);
        }
        lemma_read_string_elems(b, s1, d);
        assert(s1.push(s.last()) =~= s);
    } else {
        assert(s =~= Seq::<Seq<u8>>::empty());
    }
}

proof fn lemma_read_string_seq(b: Seq<u8>, s: Seq<Seq<u8>>, d: Seq<u8>)
    requires
        is_prefix(w_string_seq(b, s), d),
        s.len() <= u32::MAX,
        forall|i: int| 0 <= i < s.len() ==> cdr_string_fits(#[trigger] s[i]),
        d.len() + 8 <= usize::MAX,
    ensures
        sp_string_seq(d, b.len() as int) == Ok::<(Seq<Seq<u8>>, int), DeserializeError>(
            (s, w_string_seq(b, s).len() as int),
        ),
        is_prefix(b, d),
{
    lemma_read_string_elems(w_seq_len(b, s.len()), s, d);
    lemma_read_seq_len(b, s.len(), d);
}

proof fn lemma_read_value_head(b: Seq<u8>, v: ParameterValueView, d: Seq<u8>)
    requires
        is_prefix(w_value_head(b, v), d),
        d.len() + 8 <= usize::MAX,
    ensures
        sp_value_head(d, b.len() as int) == Ok::<(ValueHead, int), DeserializeError>(
            (
                ValueHead {
                    type_: v.type_,
                    bool_value: v.bool_value,
                    integer_value: v.integer_value,
                    double_value_bits: v.double_value_bits,
                },
                w_value_head(b, v).len() as int,
            ),
        ),
        is_prefix(b, d),
{
    let b0 = w_u8(b, v.type_);
    let b1 = w_u8(b0, bool_byte(v.bool_value));
    let b2 = w_align(b1, 8);
    let b3 = w_u64(b2, v.integer_value as u64);
    let b4 = w_align(b3, 8);
    lemma_read_u64(b4, v.double_value_bits, d);
    lemma_read_align(b3, 8, d);
    lemma_read_u64(b2, v.integer_value as u64, d);
    lemma_read_align(b1, 8, d);
    lemma_read_u8(b0, bool_byte(v.bool_value), d);
    lemma_read_u8(b, v.type_, d);
    lemma_i64_roundtrip(v.integer_value);
}

#[verifier::rlimit(40)]
proof fn lemma_read_value(b: Seq<u8>, v: ParameterValueView, d: Seq<u8>)
    requires
        is_prefix(w_value(b, v), d),
        value_fits(v),
        d.len() + 8 <= usize::MAX,
    ensures
        sp_value(d, b.len() as int) == Ok::<(ParameterValueView, int), DeserializeError>(
            (v, w_value(b, v).len() as int),
        ),
        is_prefix(b, d),
{
    reveal(w_value);
    reveal(sp_value);
    let b0 = w_value_head(b, v);
    let b1 = w_cdr_string(b0, v.string_value);
    let b2 = w_octet_seq(b1, v.byte_array_value);
    let b3 = w_bool_seq(b2, v.bool_array_value);
    let b4 = w_u64_seq(b3, i64_as_bits(v.integer_array_value));
    let b5 = w_u64_seq(b4, v.double_array_value_bits);
    lemma_read_string_seq(b5, v.string_array_value, d);
    lemma_read_u64_seq(b4, v.double_array_value_bits, d);
    lemma_read_i64_seq(b3, v.integer_array_value, d);
    lemma_read_bool_seq(b2, v.bool_array_value, d);
    lemma_read_octet_seq(b1, v.byte_array_value, d);
    lemma_read_cdr_string(b0, v.string_value, d);
    lemma_read_value_head(b, v, d);
}

proof fn lemma_read_param_elems(b: Seq<u8>, s: Seq<ParameterView>, d: Seq<u8>)
    requires
        is_prefix(w_param_elems(b, s), d),
        forall|i: int| 0 <= i < s.len() ==> param_fits(#[trigger] s[i]),
        d.len() + 8 <= usize::MAX,
    ensures
        sp_param_elems(d, b.len() as int, s.len()) == Ok::<
            (Seq<ParameterView>, int),
            DeserializeError,
        >((s, w_param_elems(b, s).len() as int)),
        is_prefix(b, d),
    decreases s.len(),
{
    if s.len() > 0 {
        let s1 = s.drop_last();
        let p = s.last();
        assert(param_fits(s[s.len() - 1]));
        let b1 = w_param_elems(b, s1);
        lemma_read_value(w_cdr_string(b1, p.name), p.value, d);
        lemma_read_cdr_string(b1, p.name, d);
        assert forall|i: int| 0 <= i < s1.len() implies param_fits(#[trigger] s1[i]) by {
            assert(s1[i] == s[i]);
        }
        lemma_read_param_elems(b, s1, d);
        assert(s1.push(p) =~= s);
    } else {
        assert(s =~= Seq::<ParameterView>::empty());
    }
}

proof fn lemma_read_param_seq(b: Seq<u8>, s: Seq<ParameterView>, d: Seq<u8>)
    requires
        is_prefix(w_param_seq(b, s), d),
        params_fit(s),
        d.len() + 8 <= usize::MAX,
    ensures
        sp_param_seq(d, b.len() as int) == Ok::<(Seq<ParameterView>, int), DeserializeError>(
            (s, w_param_seq(b, s).len() as int),
        ),
        is_prefix(b, d),
{
    lemma_read_param_elems(w_seq_len(b, s.len()), s, d);
    lemma_read_seq_len(b, s.len(), d);
    if s.len() == 0 {
        assert(s =~= Seq::<ParameterView>::empty());
    }
}

/// Decoding an encoded parameter event gives back the event.
pub proof fn law_parameter_event_roundtrip(m: ParameterEventView)
    requires
        event_fits(m),
        w_event(m).len() + 8 <= usize::MAX,
    ensures
        spec_encode_parameter_event(m) is Ok,
        spec_decode_parameter_event(spec_encode_parameter_event(m)->Ok_0) == Ok::<
            ParameterEventView,
            DeserializeError,
        >(m),
{
    reveal(w_event);
    let d = w_event(m);
    let b0 = w_time(Seq::empty(), m.stamp);
    let b1 = w_cdr_string(b0, m.node);
    let b2 = w_param_seq(b1, m.new_parameters);
    let b3 = w_param_seq(b2, m.changed_parameters);
    assert(d.subrange(0, d.len() as int) =~= d);
    lemma_read_param_seq(b3, m.deleted_parameters, d);
    lemma_read_param_seq(b2, m.changed_parameters, d);
    lemma_read_param_seq(b1, m.new_parameters, d);
    lemma_read_cdr_string(b0, m.node, d);
    lemma_read_time(Seq::empty(), m.stamp, d);
    assert(Seq::<u8>::empty().len() == 0);
}


/// The bytes of an encoded `rcl_interfaces/ParameterEvent` follow the ROS 2
/// wire layout: the stamp's seconds and nanoseconds (4 bytes each,
/// little-endian), the CDR string of the node name, then the parameter
/// sequences `new_parameters`, `changed_parameters` and
/// `deleted_parameters`, in that order. Reading the sequences one after the
/// other from the end of the node name gives back each list in turn, and the
/// last one ends the bytes.
pub proof fn law_parameter_event_wire_layout(m: ParameterEventView)
    requires
        event_fits(m),
        w_event(m).len() + 16 <= usize::MAX,
    ensures
        spec_encode_parameter_event(m) is Ok,
        ({
            let d = spec_encode_parameter_event(m)->Ok_0;
            &&& d.subrange(0, 4) == le4(m.stamp.sec as u32)
            &&& d.subrange(4, 8) == le4(m.stamp.nanosec)
            &&& holds_cdr_text(d, 8, m.node)
            &&& sp_param_seq(d, cdr_text_end(8, m.node)) matches Ok((first, p_changed))
            &&& first == m.new_parameters
            &&& sp_param_seq(d, p_changed) matches Ok((second, p_deleted))
            &&& second == m.changed_parameters
            &&& sp_param_seq(d, p_deleted) matches Ok((third, p_end))
            &&& third == m.deleted_parameters
            &&& p_end == d.len()
        }),
{
    reveal(w_event);
    let d = w_event(m);
    let b0 = w_time(Seq::empty(), m.stamp);
    let b1 = w_cdr_string(b0, m.node);
    let b2 = w_param_seq(b1, m.new_parameters);
    let b3 = w_param_seq(b2, m.changed_parameters);
    assert(d.subrange(0, d.len() as int) =~= d);
    lemma_read_param_seq(b3, m.deleted_parameters, d);
    lemma_read_param_seq(b2, m.changed_parameters, d);
    lemma_read_param_seq(b1, m.new_parameters, d);
    lemma_cdr_string_bytes(b0, m.node, d);
    lemma_time_bytes(m.stamp);
    lemma_prefix_append(le4(m.stamp.sec as u32), le4(m.stamp.nanosec), d);
}

} // verus!
