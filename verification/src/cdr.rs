//! Little-endian CDR (XCDR1) primitives used by the ROS 2 message codecs.
//!
//! `CdrWriter` appends naturally aligned little-endian values to a byte
//! buffer; `CdrCursor` reads them back. Alignment is relative to the start
//! of the buffer, so a cursor that starts at offset 0 of a writer's output
//! sees every value at the offset where the writer put it.
use vstd::prelude::*;

verus! {

/// Little-endian bytes of a 16-bit value.
pub open spec fn le2(v: u16) -> Seq<u8> {
    seq![(v & 0xff) as u8, ((v >> 8u16) & 0xff) as u8]
}

/// Little-endian bytes of a 32-bit value.
pub open spec fn le4(v: u32) -> Seq<u8> {
    seq![
        (v & 0xff) as u8,
        ((v >> 8u32) & 0xff) as u8,
        ((v >> 16u32) & 0xff) as u8,
        ((v >> 24u32) & 0xff) as u8,
    ]
}

/// Little-endian bytes of a 64-bit value.
pub open spec fn le8(v: u64) -> Seq<u8> {
    seq![
        (v & 0xff) as u8,
        ((v >> 8u64) & 0xff) as u8,
        ((v >> 16u64) & 0xff) as u8,
        ((v >> 24u64) & 0xff) as u8,
        ((v >> 32u64) & 0xff) as u8,
        ((v >> 40u64) & 0xff) as u8,
        ((v >> 48u64) & 0xff) as u8,
        ((v >> 56u64) & 0xff) as u8,
    ]
}

/// The 16-bit value whose little-endian bytes are `b0, b1`.
pub open spec fn from_le2(b0: u8, b1: u8) -> u16 {
    (b0 as u16) | ((b1 as u16) << 8u16)
}

/// The 32-bit value whose little-endian bytes are `b0..b3`.
pub open spec fn from_le4(b0: u8, b1: u8, b2: u8, b3: u8) -> u32 {
    (b0 as u32) | ((b1 as u32) << 8u32) | ((b2 as u32) << 16u32) | ((b3 as u32) << 24u32)
}

/// The 64-bit value whose little-endian bytes are `s[0..8]`.
pub open spec fn from_le8(s: Seq<u8>) -> u64 {
    (s[0] as u64) | ((s[1] as u64) << 8u64) | ((s[2] as u64) << 16u64) | ((s[3] as u64) << 24u64)
        | ((s[4] as u64) << 32u64) | ((s[5] as u64) << 40u64) | ((s[6] as u64) << 48u64) | ((
    s[7] as u64) << 56u64)
}

/// The number of zero bytes the writer inserts so that the next value starts
/// at a multiple of `alignment`.
pub open spec fn writer_padding(len: usize, alignment: usize) -> nat {
    if alignment <= 1 {
        0
    } else {
        (((alignment - (len & ((alignment - 1) as usize))) as usize) & ((alignment
            - 1) as usize)) as nat
    }
}

/// The offset the cursor moves to when aligning `offset` to `alignment`
/// (possibly past `usize::MAX`, in which case the alignment fails).
pub open spec fn cursor_aligned(offset: usize, alignment: usize) -> int {
    if alignment <= 1 {
        offset as int
    } else if offset + (alignment - 1) > usize::MAX {
        offset + (alignment - 1)
    } else {
        (((offset + (alignment - 1)) as usize) & !((alignment - 1) as usize)) as int
    }
}

/// `n` zero bytes.
pub open spec fn zeros(n: nat) -> Seq<u8> {
    Seq::new(n, |i: int| 0u8)
}

/// The alignments that CDR uses for its primitive types.
pub open spec fn is_cdr_alignment(a: usize) -> bool {
    a == 1 || a == 2 || a == 4 || a == 8
}

pub proof fn lemma_le2_roundtrip(v: u16)
    ensures
        from_le2(le2(v)[0], le2(v)[1]) == v,
{
    let b0 = (v & 0xff) as u8;
    let b1 = ((v >> 8u16) & 0xff) as u8;
    assert(((b0 as u16) | ((b1 as u16) << 8u16)) == v) by (bit_vector)
        requires
            b0 == (v & 0xff) as u8,
            b1 == ((v >> 8u16) & 0xff) as u8,
    ;
}

pub proof fn lemma_le4_roundtrip(v: u32)
    ensures
        from_le4(le4(v)[0], le4(v)[1], le4(v)[2], le4(v)[3]) == v,
{
    let b0 = (v & 0xff) as u8;
    let b1 = ((v >> 8u32) & 0xff) as u8;
    let b2 = ((v >> 16u32) & 0xff) as u8;
    let b3 = ((v >> 24u32) & 0xff) as u8;
    assert(((b0 as u32) | ((b1 as u32) << 8u32) | ((b2 as u32) << 16u32) | ((b3 as u32)
        << 24u32)) == v) by (bit_vector)
        requires
            b0 == (v & 0xff) as u8,
            b1 == ((v >> 8u32) & 0xff) as u8,
            b2 == ((v >> 16u32) & 0xff) as u8,
            b3 == ((v >> 24u32) & 0xff) as u8,
    ;
}

pub proof fn lemma_le8_roundtrip(v: u64)
    ensures
        from_le8(le8(v)) == v,
{
    let s = le8(v);
    let b0 = (v & 0xff) as u8;
    let b1 = ((v >> 8u64) & 0xff) as u8;
    let b2 = ((v >> 16u64) & 0xff) as u8;
    let b3 = ((v >> 24u64) & 0xff) as u8;
    let b4 = ((v >> 32u64) & 0xff) as u8;
    let b5 = ((v >> 40u64) & 0xff) as u8;
    let b6 = ((v >> 48u64) & 0xff) as u8;
    let b7 = ((v >> 56u64) & 0xff) as u8;
    assert(s[0] == b0 && s[1] == b1 && s[2] == b2 && s[3] == b3 && s[4] == b4 && s[5] == b5
        && s[6] == b6 && s[7] == b7);
    assert(((b0 as u64) | ((b1 as u64) << 8u64) | ((b2 as u64) << 16u64) | ((b3 as u64)
        << 24u64) | ((b4 as u64) << 32u64) | ((b5 as u64) << 40u64) | ((b6 as u64) << 48u64) | ((
    b7 as u64) << 56u64)) == v) by (bit_vector)
        requires
            b0 == (v & 0xff) as u8,
            b1 == ((v >> 8u64) & 0xff) as u8,
            b2 == ((v >> 16u64) & 0xff) as u8,
            b3 == ((v >> 24u64) & 0xff) as u8,
            b4 == ((v >> 32u64) & 0xff) as u8,
            b5 == ((v >> 40u64) & 0xff) as u8,
            b6 == ((v >> 48u64) & 0xff) as u8,
            b7 == ((v >> 56u64) & 0xff) as u8,
    ;
}

pub proof fn lemma_i16_roundtrip(v: i16)
    ensures
        (v as u16) as i16 == v,
{
    assert((v as u16) as i16 == v) by (bit_vector);
}

pub proof fn lemma_i32_roundtrip(v: i32)
    ensures
        (v as u32) as i32 == v,
{
    assert((v as u32) as i32 == v) by (bit_vector);
}

pub proof fn lemma_i64_roundtrip(v: i64)
    ensures
        (v as u64) as i64 == v,
{
    assert((v as u64) as i64 == v) by (bit_vector);
}

proof fn lemma_low_bits(y: usize)
    ensures
        y & 1usize == y % 2,
        y & 3usize == y % 4,
        y & 7usize == y % 8,
        y & !1usize == y - (y & 1usize),
        y & !3usize == y - (y & 3usize),
        y & !7usize == y - (y & 7usize),
{
    assert(y & 1usize == y % 2) by (bit_vector);
    assert(y & 3usize == y % 4) by (bit_vector);
    assert(y & 7usize == y % 8) by (bit_vector);
    assert(y & !1usize == y - (y & 1usize)) by (bit_vector);
    assert(y & !3usize == y - (y & 3usize)) by (bit_vector);
    assert(y & !7usize == y - (y & 7usize)) by (bit_vector);
}

/// A cursor at the writer's current length lands, after aligning, exactly
/// where the writer's padding ends.
pub proof fn lemma_align_agrees(len: usize, a: usize)
    requires
        is_cdr_alignment(a),
        len + 8 <= usize::MAX,
    ensures
        cursor_aligned(len, a) == len + writer_padding(len, a),
        writer_padding(len, a) < 8,
{
    if a > 1 {
        let m = (a - 1) as usize;
        let y = (len + m) as usize;
        let z = (a - (len & m)) as usize;
        lemma_low_bits(len);
        lemma_low_bits(y);
        lemma_low_bits(z);
    }
}

proof fn lemma_low_bits16(y: usize)
    ensures
        y & 15usize == y % 16,
        y & !15usize == y - (y & 15usize),
{
    assert(y & 15usize == y % 16) by (bit_vector);
    assert(y & !15usize == y - (y & 15usize)) by (bit_vector);
}

/// Aligning to a power of two up to 16: the cursor lands where the
/// writer's padding ends, that position is a multiple of the alignment, and
/// a length that is already a multiple gets no padding.
pub proof fn lemma_align_facts(len: usize, a: usize)
    requires
        a == 1 || a == 2 || a == 4 || a == 8 || a == 16,
        len + 16 <= usize::MAX,
    ensures
        cursor_aligned(len, a) == len + writer_padding(len, a),
        writer_padding(len, a) < a,
        (len + writer_padding(len, a)) % (a as int) == 0,
        (len as int) % (a as int) == 0 ==> writer_padding(len, a) == 0,
{
    if a == 2 {
        lemma_align_pow(len, 2, 1);
    } else if a == 4 {
        lemma_align_pow(len, 4, 3);
    } else if a == 8 {
        lemma_align_pow(len, 8, 7);
    } else if a == 16 {
        lemma_align_pow(len, 16, 15);
    }
}

/// Aligning to a power of two from 2 to 16 with mask `m`.
pub proof fn lemma_align_pow(len: usize, a: usize, m: usize)
    requires
        (a == 2 && m == 1) || (a == 4 && m == 3) || (a == 8 && m == 7) || (a == 16 && m == 15),
        len + m <= usize::MAX,
    ensures
        cursor_aligned(len, a) == len + writer_padding(len, a),
        writer_padding(len, a) < a,
        (len + writer_padding(len, a)) % (a as int) == 0,
        (len as int) % (a as int) == 0 ==> writer_padding(len, a) == 0,
{
    let y = (len + m) as usize;
    lemma_mask_le(len, m);
    let z = (a - (len & m)) as usize;
    assert(len & m == len % a && y & m == y % a && z & m == z % a
        && y & !m == y - (y & m)) by {
        if a == 16 {
            lemma_low_bits16(len);
            lemma_low_bits16(y);
            lemma_low_bits16(z);
        } else {
            lemma_low_bits(len);
            lemma_low_bits(y);
            lemma_low_bits(z);
        }
    }
    assert((a - 1) as usize == m);
    assert(writer_padding(len, a) == z % a);
    assert(cursor_aligned(len, a) == y - y % a);
}

proof fn lemma_mask_le(len: usize, mask: usize)
    ensures
        len & mask <= mask,
{
    assert(len & mask <= mask) by (bit_vector);
}

/// Errors of the CDR reader.
#[derive(Debug, Clone, Copy, PartialEq, Eq)]
pub enum DeserializeError {
    /// The buffer ended before the value did.
    BufferUnderflow,
    /// The value has a type or form the codec does not handle.
    UnsupportedType(&'static str),
    /// A string or sequence is longer than its declared bound.
    LengthExceeded(&'static str),
    /// A sequence could not be resized.
    ResizeFailed,
    /// Introspection metadata is missing.
    MissingIntrospection,
    /// A sequence has no element accessor.
    MissingGetFunction,
    /// A string could not be stored.
    StringAssignFailed,
}

/// Errors of the CDR writer.
#[derive(Debug, Clone, Copy, PartialEq, Eq)]
pub enum SerializeError {
    /// A length does not fit the wire format.
    BufferOverflow,
    /// The value has a type or form the codec does not handle.
    UnsupportedType(&'static str),
    /// A string or sequence is longer than its declared bound.
    LengthExceeded(&'static str),
    /// Introspection metadata is missing.
    MissingIntrospection,
    /// A sequence has no size accessor.
    MissingSizeFunction,
    /// A sequence has no element accessor.
    MissingGetFunction,
}

/// Errors reported across the middleware API.
#[derive(Debug, Clone, Copy, PartialEq, Eq)]
pub enum ApiError {
    /// Bad configuration or missing metadata.
    Config,
    /// The payload could not be encoded or decoded.
    SerializationError,
    /// The type or form is not supported.
    Unsupported,
}

/// How a reader error is reported at the API.
pub open spec fn spec_map_deserialize_error(err: DeserializeError) -> ApiError {
    match err {
        DeserializeError::UnsupportedType(_) | DeserializeError::LengthExceeded(_) => {
            ApiError::Unsupported
        },
        _ => ApiError::SerializationError,
    }
}

/// How a writer error is reported at the API.
pub open spec fn spec_map_serialize_error(err: SerializeError) -> ApiError {
    match err {
        SerializeError::UnsupportedType(_) | SerializeError::LengthExceeded(_) => {
            ApiError::Unsupported
        },
        SerializeError::MissingIntrospection
        | SerializeError::MissingSizeFunction
        | SerializeError::MissingGetFunction => ApiError::Config,
        SerializeError::BufferOverflow => ApiError::SerializationError,
    }
}

pub fn map_deserialize_error(err: DeserializeError) -> (res: ApiError)
    ensures
        res == spec_map_deserialize_error(err),
{
    match err {
        DeserializeError::UnsupportedType(_) | DeserializeError::LengthExceeded(_) => {
            ApiError::Unsupported
        },
        _ => ApiError::SerializationError,
    }
}

pub fn map_serialize_error(err: SerializeError) -> (res: ApiError)
    ensures
        res == spec_map_serialize_error(err),
{
    match err {
        SerializeError::UnsupportedType(_) | SerializeError::LengthExceeded(_) => {
            ApiError::Unsupported
        },
        SerializeError::MissingIntrospection
        | SerializeError::MissingSizeFunction
        | SerializeError::MissingGetFunction => ApiError::Config,
        SerializeError::BufferOverflow => ApiError::SerializationError,
    }
}

/// The writer error a reader error stands for when a value is re-encoded.
pub open spec fn spec_serialize_error_from(err: DeserializeError) -> SerializeError {
    match err {
        DeserializeError::BufferUnderflow => SerializeError::BufferOverflow,
        DeserializeError::UnsupportedType(r) => SerializeError::UnsupportedType(r),
        DeserializeError::LengthExceeded(r) => SerializeError::LengthExceeded(r),
        DeserializeError::ResizeFailed => SerializeError::MissingSizeFunction,
        DeserializeError::MissingIntrospection => SerializeError::MissingIntrospection,
        DeserializeError::MissingGetFunction => SerializeError::MissingGetFunction,
        DeserializeError::StringAssignFailed => SerializeError::UnsupportedType(
            "string assignment failed",
        ),
    }
}

pub fn serialize_error_from(err: DeserializeError) -> (res: SerializeError)
    ensures
        res == spec_serialize_error_from(err),
{
    match err {
        DeserializeError::BufferUnderflow => SerializeError::BufferOverflow,
        DeserializeError::UnsupportedType(r) => SerializeError::UnsupportedType(r),
        DeserializeError::LengthExceeded(r) => SerializeError::LengthExceeded(r),
        DeserializeError::ResizeFailed => SerializeError::MissingSizeFunction,
        DeserializeError::MissingIntrospection => SerializeError::MissingIntrospection,
        DeserializeError::MissingGetFunction => SerializeError::MissingGetFunction,
        DeserializeError::StringAssignFailed => SerializeError::UnsupportedType(
            "string assignment failed",
        ),
    }
}

/// An encoded payload.
pub struct BytePayload {
    pub data: Vec<u8>,
}

/// Appends CDR-encoded values to a growing buffer.
pub struct CdrWriter {
    pub buffer: Vec<u8>,
}

impl View for CdrWriter {
    type V = Seq<u8>;

    open spec fn view(&self) -> Seq<u8> {
        self.buffer@
    }
}

impl CdrWriter {
    pub fn new() -> (w: Self)
        ensures
            w@ == Seq::<u8>::empty(),
    {
        CdrWriter { buffer: Vec::new() }
    }

    /// Pads with zero bytes up to the next multiple of `alignment`.
    pub fn align(&mut self, alignment: usize)
        ensures
            final(self)@ == old(self)@ + zeros(
                writer_padding(old(self)@.len() as usize, alignment),
            ),
    {
        if alignment <= 1 {
            assert(old(self)@ + zeros(0) =~= old(self)@);
            return ;
        }
        let mask = alignment - 1;
        let len = self.buffer.len();
        proof {
            lemma_mask_le(len, mask);
        }
        let padding = (alignment - (len & mask)) & mask;
        proof {
            lemma_mask_le((alignment - (len & mask)) as usize, mask);
        }
        let ghost start = self.buffer@;
        let mut i: usize = 0;
        while i < padding
            invariant
                i <= padding,
                padding == writer_padding(start.len() as usize, alignment),
                padding <= mask,
                mask == alignment - 1,
                self.buffer@ =~= start + zeros(i as nat),
            decreases padding - i,
        {
            self.buffer.push(0);
            i = i + 1;
            assert(self.buffer@ =~= start + zeros(i as nat));
        }
    }

    pub fn write_u8(&mut self, value: u8)
        ensures
            final(self)@ == old(self)@.push(value),
    {
        self.buffer.push(value);
    }

    pub fn write_u16(&mut self, value: u16)
        ensures
            final(self)@ == old(self)@ + le2(value),
    {
        self.buffer.push((value & 0xff) as u8);
        self.buffer.push(((value >> 8u16) & 0xff) as u8);
        assert(self.buffer@ =~= old(self)@ + le2(value));
    }

    pub fn write_u32(&mut self, value: u32)
        ensures
            final(self)@ == old(self)@ + le4(value),
    {
        self.buffer.push((value & 0xff) as u8);
        self.buffer.push(((value >> 8u32) & 0xff) as u8);
        self.buffer.push(((value >> 16u32) & 0xff) as u8);
        self.buffer.push(((value >> 24u32) & 0xff) as u8);
        assert(self.buffer@ =~= old(self)@ + le4(value));
    }

    pub fn write_u64(&mut self, value: u64)
        ensures
            final(self)@ == old(self)@ + le8(value),
    {
        self.buffer.push((value & 0xff) as u8);
        self.buffer.push(((value >> 8u64) & 0xff) as u8);
        self.buffer.push(((value >> 16u64) & 0xff) as u8);
        self.buffer.push(((value >> 24u64) & 0xff) as u8);
        self.buffer.push(((value >> 32u64) & 0xff) as u8);
        self.buffer.push(((value >> 40u64) & 0xff) as u8);
        self.buffer.push(((value >> 48u64) & 0xff) as u8);
        self.buffer.push(((value >> 56u64) & 0xff) as u8);
        assert(self.buffer@ =~= old(self)@ + le8(value));
    }

    pub fn write_i16(&mut self, value: i16)
        ensures
            final(self)@ == old(self)@ + le2(value as u16),
    {
        self.write_u16(value as u16);
    }

    pub fn write_i32(&mut self, value: i32)
        ensures
            final(self)@ == old(self)@ + le4(value as u32),
    {
        self.write_u32(value as u32);
    }

    pub fn write_i64(&mut self, value: i64)
        ensures
            final(self)@ == old(self)@ + le8(value as u64),
    {
        self.write_u64(value as u64);
    }

    pub fn write_bytes(&mut self, bytes: &[u8])
        ensures
            final(self)@ == old(self)@ + bytes@,
    {
        let ghost start = self.buffer@;
        let mut i: usize = 0;
        while i < bytes.len()
            invariant
                i <= bytes@.len(),
                self.buffer@ =~= start + bytes@.subrange(0, i as int),
            decreases bytes@.len() - i,
        {
            self.buffer.push(bytes[i]);
            i = i + 1;
            assert(self.buffer@ =~= start + bytes@.subrange(0, i as int));
        }
        assert(bytes@.subrange(0, bytes@.len() as int) =~= bytes@);
    }

    pub fn into_payload(self) -> (p: BytePayload)
        ensures
            p.data@ == self@,
    {
        BytePayload { data: self.buffer }
    }
}

/// Reads CDR-encoded values from a byte slice, front to back.
pub struct CdrCursor<'a> {
    data: &'a [u8],
    offset: usize,
}

impl<'a> CdrCursor<'a> {
    #[verifier::type_invariant]
    spec fn inv(&self) -> bool {
        self.offset <= self.data@.len()
    }

    /// The bytes being read.
    pub closed spec fn bytes(&self) -> Seq<u8> {
        self.data@
    }

    /// The offset of the next byte to read.
    pub closed spec fn pos(&self) -> int {
        self.offset as int
    }

    pub fn new(data: &'a [u8]) -> (c: Self)
        ensures
            c.bytes() == data@,
            c.pos() == 0,
    {
        CdrCursor { data, offset: 0 }
    }

    pub fn offset(&self) -> (o: usize)
        ensures
            o == self.pos(),
            o <= self.bytes().len(),
    {
        proof {
            use_type_invariant(self);
        }
        self.offset
    }

    /// Moves to the next multiple of `alignment`; fails if that lies past the end.
    pub fn align(&mut self, alignment: usize) -> (r: Result<(), DeserializeError>)
        ensures
            final(self).bytes() == old(self).bytes(),
            final(self).pos() <= final(self).bytes().len(),
            r is Ok <==> cursor_aligned(old(self).pos() as usize, alignment) <= old(
                self,
            ).bytes().len(),
            r is Ok ==> final(self).pos() == cursor_aligned(old(self).pos() as usize, alignment),
            r is Err ==> r == Err::<(), DeserializeError>(DeserializeError::BufferUnderflow)
                && final(self).pos() == old(self).pos(),
    {
        proof {
            use_type_invariant(&*self);
        }
        if alignment <= 1 {
            return Ok(());
        }
        let mask = alignment - 1;
        let data_len = self.data.len();
        if self.offset > usize::MAX - mask {
            return Err(DeserializeError::BufferUnderflow);
        }
        let aligned = (self.offset + mask) & !mask;
        if aligned > self.data.len() {
            return Err(DeserializeError::BufferUnderflow);
        }
        self.offset = aligned;
        Ok(())
    }

    pub fn read_u8(&mut self) -> (r: Result<u8, DeserializeError>)
        ensures
            final(self).bytes() == old(self).bytes(),
            final(self).pos() <= final(self).bytes().len(),
            r is Ok <==> old(self).pos() + 1 <= old(self).bytes().len(),
            r is Ok ==> r->Ok_0 == old(self).bytes()[old(self).pos() as int] && final(self).pos()
                == old(self).pos() + 1,
            r is Err ==> r == Err::<u8, DeserializeError>(DeserializeError::BufferUnderflow)
                && final(self).pos() == old(self).pos(),
    {
        proof {
            use_type_invariant(&*self);
        }
        if self.offset >= self.data.len() {
            return Err(DeserializeError::BufferUnderflow);
        }
        let value = self.data[self.offset];
        self.offset = self.offset + 1;
        Ok(value)
    }

    pub fn read_u16(&mut self) -> (r: Result<u16, DeserializeError>)
        ensures
            final(self).bytes() == old(self).bytes(),
            final(self).pos() <= final(self).bytes().len(),
            r is Ok <==> old(self).pos() + 2 <= old(self).bytes().len(),
            r is Ok ==> r->Ok_0 == from_le2(
                old(self).bytes()[old(self).pos() as int],
                old(self).bytes()[old(self).pos() + 1],
            ) && final(self).pos() == old(self).pos() + 2,
            r is Err ==> r == Err::<u16, DeserializeError>(DeserializeError::BufferUnderflow)
                && final(self).pos() == old(self).pos(),
    {
        proof {
            use_type_invariant(&*self);
        }
        if 2 > self.data.len() - self.offset {
            return Err(DeserializeError::BufferUnderflow);
        }
        let o = self.offset;
        let b0 = self.data[o];
        let b1 = self.data[o + 1];
        self.offset = o + 2;
        Ok((b0 as u16) | ((b1 as u16) << 8u16))
    }

    pub fn read_u32(&mut self) -> (r: Result<u32, DeserializeError>)
        ensures
            final(self).bytes() == old(self).bytes(),
            final(self).pos() <= final(self).bytes().len(),
            r is Ok <==> old(self).pos() + 4 <= old(self).bytes().len(),
            r is Ok ==> r->Ok_0 == from_le4(
                old(self).bytes()[old(self).pos() as int],
                old(self).bytes()[old(self).pos() + 1],
                old(self).bytes()[old(self).pos() + 2],
                old(self).bytes()[old(self).pos() + 3],
            ) && final(self).pos() == old(self).pos() + 4,
            r is Err ==> r == Err::<u32, DeserializeError>(DeserializeError::BufferUnderflow)
                && final(self).pos() == old(self).pos(),
    {
        proof {
            use_type_invariant(&*self);
        }
        if 4 > self.data.len() - self.offset {
            return Err(DeserializeError::BufferUnderflow);
        }
        let o = self.offset;
        let b0 = self.data[o];
        let b1 = self.data[o + 1];
        let b2 = self.data[o + 2];
        let b3 = self.data[o + 3];
        self.offset = o + 4;
        Ok((b0 as u32) | ((b1 as u32) << 8u32) | ((b2 as u32) << 16u32) | ((b3 as u32) << 24u32))
    }

    pub fn read_u64(&mut self) -> (r: Result<u64, DeserializeError>)
        ensures
            final(self).bytes() == old(self).bytes(),
            final(self).pos() <= final(self).bytes().len(),
            r is Ok <==> old(self).pos() + 8 <= old(self).bytes().len(),
            r is Ok ==> r->Ok_0 == from_le8(
                old(self).bytes().subrange(old(self).pos() as int, old(self).pos() + 8),
            ) && final(self).pos() == old(self).pos() + 8,
            r is Err ==> r == Err::<u64, DeserializeError>(DeserializeError::BufferUnderflow)
                && final(self).pos() == old(self).pos(),
    {
        proof {
            use_type_invariant(&*self);
        }
        if 8 > self.data.len() - self.offset {
            return Err(DeserializeError::BufferUnderflow);
        }
        let o = self.offset;
        let b0 = self.data[o];
        let b1 = self.data[o + 1];
        let b2 = self.data[o + 2];
        let b3 = self.data[o + 3];
        let b4 = self.data[o + 4];
        let b5 = self.data[o + 5];
        let b6 = self.data[o + 6];
        let b7 = self.data[o + 7];
        self.offset = o + 8;
        Ok((b0 as u64) | ((b1 as u64) << 8u64) | ((b2 as u64) << 16u64) | ((b3 as u64) << 24u64)
            | ((b4 as u64) << 32u64) | ((b5 as u64) << 40u64) | ((b6 as u64) << 48u64) | ((
        b7 as u64) << 56u64))
    }

    pub fn read_i16(&mut self) -> (r: Result<i16, DeserializeError>)
        ensures
            final(self).bytes() == old(self).bytes(),
            final(self).pos() <= final(self).bytes().len(),
            r is Ok <==> old(self).pos() + 2 <= old(self).bytes().len(),
            r is Ok ==> r->Ok_0 == from_le2(
                old(self).bytes()[old(self).pos() as int],
                old(self).bytes()[old(self).pos() + 1],
            ) as i16 && final(self).pos() == old(self).pos() + 2,
            r is Err ==> r == Err::<i16, DeserializeError>(DeserializeError::BufferUnderflow)
                && final(self).pos() == old(self).pos(),
    {
        let v = self.read_u16()?;
        Ok(v as i16)
    }

    pub fn read_i32(&mut self) -> (r: Result<i32, DeserializeError>)
        ensures
            final(self).bytes() == old(self).bytes(),
            final(self).pos() <= final(self).bytes().len(),
            r is Ok <==> old(self).pos() + 4 <= old(self).bytes().len(),
            r is Ok ==> r->Ok_0 == from_le4(
                old(self).bytes()[old(self).pos() as int],
                old(self).bytes()[old(self).pos() + 1],
                old(self).bytes()[old(self).pos() + 2],
                old(self).bytes()[old(self).pos() + 3],
            ) as i32 && final(self).pos() == old(self).pos() + 4,
            r is Err ==> r == Err::<i32, DeserializeError>(DeserializeError::BufferUnderflow)
                && final(self).pos() == old(self).pos(),
    {
        let v = self.read_u32()?;
        Ok(v as i32)
    }

    pub fn read_i64(&mut self) -> (r: Result<i64, DeserializeError>)
        ensures
            final(self).bytes() == old(self).bytes(),
            final(self).pos() <= final(self).bytes().len(),
            r is Ok <==> old(self).pos() + 8 <= old(self).bytes().len(),
            r is Ok ==> r->Ok_0 == from_le8(
                old(self).bytes().subrange(old(self).pos() as int, old(self).pos() + 8),
            ) as i64 && final(self).pos() == old(self).pos() + 8,
            r is Err ==> r == Err::<i64, DeserializeError>(DeserializeError::BufferUnderflow)
                && final(self).pos() == old(self).pos(),
    {
        let v = self.read_u64()?;
        Ok(v as i64)
    }

    /// Reads `len` bytes.
    pub fn read_bytes(&mut self, len: usize) -> (r: Result<&'a [u8], DeserializeError>)
        ensures
            final(self).bytes() == old(self).bytes(),
            final(self).pos() <= final(self).bytes().len(),
            r is Ok <==> old(self).pos() + len <= old(self).bytes().len(),
            r is Ok ==> r->Ok_0@ == old(self).bytes().subrange(
                old(self).pos() as int,
                old(self).pos() + len,
            ) && final(self).pos() == old(self).pos() + len,
            r is Err ==> r == Err::<&'a [u8], DeserializeError>(DeserializeError::BufferUnderflow)
                && final(self).pos() == old(self).pos(),
    {
        proof {
            use_type_invariant(&*self);
        }
        if len > self.data.len() - self.offset {
            return Err(DeserializeError::BufferUnderflow);
        }
        let o = self.offset;
        let slice = &self.data[o..o + len];
        self.offset = o + len;
        Ok(slice)
    }
}

/// `b` is a prefix of `d`.
pub open spec fn is_prefix(b: Seq<u8>, d: Seq<u8>) -> bool {
    b.len() <= d.len() && d.subrange(0, b.len() as int) =~= b
}

// What the writer appends, as functions of the buffer so far.
pub open spec fn w_align(b: Seq<u8>, a: usize) -> Seq<u8> {
    b + zeros(writer_padding(b.len() as usize, a))
}

pub open spec fn w_u8(b: Seq<u8>, v: u8) -> Seq<u8> {
    b.push(v)
}

pub open spec fn w_u32(b: Seq<u8>, v: u32) -> Seq<u8> {
    b + le4(v)
}

pub open spec fn w_u64(b: Seq<u8>, v: u64) -> Seq<u8> {
    b + le8(v)
}

// What the cursor reads, as functions of the bytes and the position.
pub open spec fn sp_align(d: Seq<u8>, p: int, a: usize) -> Result<int, DeserializeError> {
    if cursor_aligned(p as usize, a) <= d.len() {
        Ok(cursor_aligned(p as usize, a))
    } else {
        Err(DeserializeError::BufferUnderflow)
    }
}

pub open spec fn sp_u8(d: Seq<u8>, p: int) -> Result<(u8, int), DeserializeError> {
    if p + 1 <= d.len() {
        Ok((d[p], p + 1))
    } else {
        Err(DeserializeError::BufferUnderflow)
    }
}

pub open spec fn sp_u32(d: Seq<u8>, p: int) -> Result<(u32, int), DeserializeError> {
    if p + 4 <= d.len() {
        Ok((from_le4(d[p], d[p + 1], d[p + 2], d[p + 3]), p + 4))
    } else {
        Err(DeserializeError::BufferUnderflow)
    }
}

pub open spec fn sp_u64(d: Seq<u8>, p: int) -> Result<(u64, int), DeserializeError> {
    if p + 8 <= d.len() {
        Ok((from_le8(d.subrange(p, p + 8)), p + 8))
    } else {
        Err(DeserializeError::BufferUnderflow)
    }
}

pub open spec fn sp_bytes(d: Seq<u8>, p: int, n: int) -> Result<(Seq<u8>, int), DeserializeError> {
    if p + n <= d.len() {
        Ok((d.subrange(p, p + n), p + n))
    } else {
        Err(DeserializeError::BufferUnderflow)
    }
}

pub proof fn lemma_prefix_trans(a: Seq<u8>, b: Seq<u8>, c: Seq<u8>)
    requires
        is_prefix(a, b),
        is_prefix(b, c),
    ensures
        is_prefix(a, c),
{
    assert(c.subrange(0, a.len() as int) =~= c.subrange(0, b.len() as int).subrange(
        0,
        a.len() as int,
    ));
}

pub proof fn lemma_prefix_append(a: Seq<u8>, x: Seq<u8>, c: Seq<u8>)
    requires
        is_prefix(a + x, c),
    ensures
        is_prefix(a, c),
        c.subrange(a.len() as int, a.len() + x.len() as int) =~= x,
{
    assert(c.subrange(0, a.len() as int) =~= c.subrange(0, (a + x).len() as int).subrange(
        0,
        a.len() as int,
    ));
    assert(c.subrange(a.len() as int, a.len() + x.len() as int) =~= c.subrange(
        0,
        (a + x).len() as int,
    ).subrange(a.len() as int, a.len() + x.len() as int));
}

pub proof fn lemma_read_align(b: Seq<u8>, a: usize, d: Seq<u8>)
    requires
        is_prefix(w_align(b, a), d),
        is_cdr_alignment(a),
        d.len() + 8 <= usize::MAX,
    ensures
        sp_align(d, b.len() as int, a) == Ok::<int, DeserializeError>(w_align(b, a).len() as int),
        is_prefix(b, d),
{
    lemma_align_agrees(b.len() as usize, a);
    lemma_prefix_append(b, zeros(writer_padding(b.len() as usize, a)), d);
}

/// Reading past the writer's padding for any alignment up to 16.
pub proof fn lemma_read_align_any(b: Seq<u8>, a: usize, d: Seq<u8>)
    requires
        is_prefix(w_align(b, a), d),
        a == 1 || a == 2 || a == 4 || a == 8 || a == 16,
        d.len() + 16 <= usize::MAX,
    ensures
        sp_align(d, b.len() as int, a) == Ok::<int, DeserializeError>(w_align(b, a).len() as int),
        is_prefix(b, d),
        (w_align(b, a).len() as int) % (a as int) == 0,
{
    lemma_align_facts(b.len() as usize, a);
    lemma_prefix_append(b, zeros(writer_padding(b.len() as usize, a)), d);
}

/// Aligning what is already aligned adds nothing.
pub proof fn lemma_align_idem(b: Seq<u8>, a: usize)
    requires
        a == 1 || a == 2 || a == 4 || a == 8 || a == 16,
        b.len() + 32 <= usize::MAX,
    ensures
        w_align(w_align(b, a), a) == w_align(b, a),
{
    lemma_align_facts(b.len() as usize, a);
    let c = w_align(b, a);
    lemma_align_facts(c.len() as usize, a);
    assert(c + zeros(0) =~= c);
}

pub proof fn lemma_read_u8(b: Seq<u8>, v: u8, d: Seq<u8>)
    requires
        is_prefix(w_u8(b, v), d),
    ensures
        sp_u8(d, b.len() as int) == Ok::<(u8, int), DeserializeError>((v, b.len() + 1int)),
        is_prefix(b, d),
{
    assert(w_u8(b, v) =~= b + seq![v]);
    lemma_prefix_append(b, seq![v], d);
    assert(d.subrange(b.len() as int, b.len() + 1int)[0] == d[b.len() as int]);
}

pub proof fn lemma_read_u32(b: Seq<u8>, v: u32, d: Seq<u8>)
    requires
        is_prefix(w_u32(b, v), d),
    ensures
        sp_u32(d, b.len() as int) == Ok::<(u32, int), DeserializeError>((v, b.len() + 4int)),
        is_prefix(b, d),
{
    lemma_prefix_append(b, le4(v), d);
    let p = b.len() as int;
    let x = d.subrange(p, p + 4);
    assert(x[0] == d[p] && x[1] == d[p + 1] && x[2] == d[p + 2] && x[3] == d[p + 3]);
    lemma_le4_roundtrip(v);
}

pub proof fn lemma_read_u64(b: Seq<u8>, v: u64, d: Seq<u8>)
    requires
        is_prefix(w_u64(b, v), d),
    ensures
        sp_u64(d, b.len() as int) == Ok::<(u64, int), DeserializeError>((v, b.len() + 8int)),
        is_prefix(b, d),
{
    lemma_prefix_append(b, le8(v), d);
    lemma_le8_roundtrip(v);
}

pub proof fn lemma_read_bytes(b: Seq<u8>, x: Seq<u8>, d: Seq<u8>)
    requires
        is_prefix(b + x, d),
    ensures
        sp_bytes(d, b.len() as int, x.len() as int) == Ok::<(Seq<u8>, int), DeserializeError>(
            (x, (b.len() + x.len()) as int),
        ),
        is_prefix(b, d),
{
    lemma_prefix_append(b, x, d);
}

} // verus!
