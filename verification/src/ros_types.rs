//! ROS 2 type names, the dynamic type of a message member, and the RPC
//! exception codes of the C API.
use vstd::prelude::*;
use vstd::string::StringSliceAdditionalSpecFns;
use crate::text::{chars_of, push_char, chars_eq};
use crate::ros_introspection::{
    ROS_TYPE_BOOLEAN, ROS_TYPE_CHAR, ROS_TYPE_DOUBLE, ROS_TYPE_FLOAT, ROS_TYPE_INT16, ROS_TYPE_INT32,
    ROS_TYPE_INT64, ROS_TYPE_INT8, ROS_TYPE_LONG_DOUBLE, ROS_TYPE_MESSAGE, ROS_TYPE_OCTET, ROS_TYPE_STRING,
    ROS_TYPE_UINT16, ROS_TYPE_UINT32, ROS_TYPE_UINT64, ROS_TYPE_UINT8, ROS_TYPE_WCHAR, ROS_TYPE_WSTRING,
};

verus! {

/// `s` with every occurrence of `pat` replaced by `rep`, scanning left to
/// right without overlaps (as `str::replace` does).
pub open spec fn replaced(s: Seq<char>, pat: Seq<char>, rep: Seq<char>) -> Seq<char>
    recommends
        pat.len() > 0,
    decreases s.len(),
{
    if pat.len() == 0 || s.len() < pat.len() {
        s
    } else if s.take(pat.len() as int) == pat {
        rep + replaced(s.skip(pat.len() as int), pat, rep)
    } else {
        seq![s[0]] + replaced(s.drop_first(), pat, rep)
    }
}

/// Whether `pat` occurs in `s`.
pub open spec fn occurs(s: Seq<char>, pat: Seq<char>) -> bool {
    exists|i: int| 0 <= i <= s.len() - pat.len() && #[trigger] s.subrange(i, i + pat.len()) == pat
}

fn replace_all(s: &str, pat: &[char], rep: &[char]) -> (r: String)
    requires
        pat@.len() > 0,
    ensures
        r@ == replaced(s@, pat@, rep@),
{
    let v = chars_of(s);
    let mut out = String::new();
    let mut i: usize = 0;
    assert(v@.skip(0) =~= v@);
    while i < v.len()
        invariant
            i <= v@.len(),
            v@ == s@,
            pat@.len() > 0,
            replaced(s@, pat@, rep@) == out@ + replaced(v@.skip(i as int), pat@, rep@),
        decreases v@.len() - i,
    {
        let ghost t = v@.skip(i as int);
        let mut hit = v.len() - i >= pat.len();
        if hit {
            let mut j: usize = 0;
            while j < pat.len()
                invariant
                    j <= pat@.len(),
                    i < v@.len(),
                    v@.len() <= usize::MAX,
                    i + pat@.len() <= v@.len(),
                    hit == (forall|k: int| 0 <= k < j ==> v@[i + k] == pat@[k]),
                decreases pat@.len() - j,
            {
                assert(i + j < v@.len());
                let c = v[i + j];
                if c != pat[j] {
                    hit = false;
                }
                j = j + 1;
            }
            proof {
                if hit {
                    assert(t.take(pat@.len() as int) =~= pat@);
                } else {
                    let k = choose|k: int| 0 <= k < pat@.len() && v@[i + k] != pat@[k];
                    assert(t.take(pat@.len() as int)[k] != pat@[k]);
                }
            }
        }
        if hit {
            let ghost before = out@;
            let mut k: usize = 0;
            while k < rep.len()
                invariant
                    k <= rep@.len(),
                    out@ == before + rep@.take(k as int),
                decreases rep@.len() - k,
            {
                push_char(&mut out, rep[k]);
                assert(rep@.take(k + 1) =~= rep@.take(k as int).push(rep@[k as int]));
                k = k + 1;
            }
            assert(rep@.take(rep@.len() as int) =~= rep@);
            assert(t.skip(pat@.len() as int) =~= v@.skip(i + pat@.len()));
            assert(out@ + replaced(v@.skip(i + pat@.len()), pat@, rep@) =~= before + (rep@
                + replaced(t.skip(pat@.len() as int), pat@, rep@)));
            i = i + pat.len();
        } else {
            let ghost before = out@;
            push_char(&mut out, v[i]);
            assert(t[0] == v@[i as int]);
            assert(t.drop_first() =~= v@.skip(i + 1));
            assert(out@ + replaced(v@.skip(i + 1), pat@, rep@) =~= before + (seq![t[0]] + replaced(
                t.drop_first(),
                pat@,
                rep@,
            )));
            i = i + 1;
        }
    }
    assert(replaced(v@.skip(i as int), pat@, rep@) =~= Seq::<char>::empty());
    assert(out@ + Seq::<char>::empty() =~= out@);
    out
}

fn occurs_in(s: &str, pat: &[char]) -> (b: bool)
    ensures
        b == occurs(s@, pat@),
{
    let v = chars_of(s);
    if pat.len() > v.len() {
        assert forall|i: int| 0 <= i <= s@.len() - pat@.len() implies #[trigger] s@.subrange(i, i + pat@.len()) != pat@ by {
        }
        return false;
    }
    let last = v.len() - pat.len();
    let mut i: usize = 0;
    loop
        invariant
            v@ == s@,
            pat@.len() <= v@.len(),
            last == v@.len() - pat@.len(),
            v@.len() <= usize::MAX,
            i <= last,
            forall|x: int| 0 <= x < i ==> #[trigger] s@.subrange(x, x + pat@.len()) != pat@,
        ensures
            forall|x: int| 0 <= x <= s@.len() - pat@.len() ==> #[trigger] s@.subrange(x, x + pat@.len()) != pat@,
        decreases last - i,
    {
        let w = vstd::slice::slice_subrange(v.as_slice(), i, i + pat.len());
        if chars_eq(w, pat) {
            assert(s@.subrange(i as int, i + pat@.len()) == pat@);
            return true;
        }
        if i == last {
            assert forall|x: int| 0 <= x <= s@.len() - pat@.len() implies #[trigger] s@.subrange(x, x + pat@.len()) != pat@ by {
                if x == i {
                    assert(w@ =~= s@.subrange(i as int, i + pat@.len()));
                }
            }
            break;
        }
        assert(w@ =~= s@.subrange(i as int, i + pat@.len()));
        i = i + 1;
    }
    false
}

/// `std_msgs/msg/String` becomes `std_msgs/String`: every `/msg/` becomes
/// `/`.
pub fn normalize_ros2_type(name: &str) -> (r: String)
    ensures
        r@ == replaced(name@, "/msg/"@, "/"@),
{
    let pat: [char; 5] = ['/', 'm', 's', 'g', '/'];
    let rep: [char; 1] = ['/'];
    proof {
        reveal_strlit("/msg/");
        reveal_strlit("/");
    }
    assert(pat@ =~= "/msg/"@);
    assert(rep@ =~= "/"@);
    replace_all(name, pat.as_slice(), rep.as_slice())
}

/// A C++-style type name (`std_msgs::msg::String`) with `::` written as `/`;
/// other names unchanged.
pub fn normalize_ros_type_name(name: &str) -> (r: String)
    ensures
        r@ == (if occurs(name@, "::"@) {
            replaced(name@, "::"@, "/"@)
        } else {
            name@
        }),
{
    let pat: [char; 2] = [':', ':'];
    let rep: [char; 1] = ['/'];
    proof {
        reveal_strlit("::");
        reveal_strlit("/");
    }
    assert(pat@ =~= "::"@);
    assert(rep@ =~= "/"@);
    if occurs_in(name, pat.as_slice()) {
        replace_all(name, pat.as_slice(), rep.as_slice())
    } else {
        String::from_str(name)
    }
}

/// RPC exception codes (DDS-RPC).
#[derive(Debug, Clone, Copy, PartialEq, Eq, Structural)]
pub enum HddsRpcExceptionCode {
    /// No error.
    HddsRpcOk,
    /// Service not found.
    HddsRpcUnsupportedService,
    /// Method not found.
    HddsRpcUnsupportedMethod,
    /// Invalid arguments.
    HddsRpcInvalidArgument,
    /// Service unavailable.
    HddsRpcServiceUnavailable,
    /// Request timed out.
    HddsRpcTimeout,
    /// Internal error.
    HddsRpcInternalError,
    /// Unknown error.
    HddsRpcUnknown,
}

pub open spec fn exception_code(e: HddsRpcExceptionCode) -> i32 {
    match e {
        HddsRpcExceptionCode::HddsRpcOk => 0i32,
        HddsRpcExceptionCode::HddsRpcUnsupportedService => 1i32,
        HddsRpcExceptionCode::HddsRpcUnsupportedMethod => 2i32,
        HddsRpcExceptionCode::HddsRpcInvalidArgument => 3i32,
        HddsRpcExceptionCode::HddsRpcServiceUnavailable => 4i32,
        HddsRpcExceptionCode::HddsRpcTimeout => 5i32,
        HddsRpcExceptionCode::HddsRpcInternalError => 6i32,
        HddsRpcExceptionCode::HddsRpcUnknown => -1i32,
    }
}

impl HddsRpcExceptionCode {
    /// The code's value in the C API.
    pub fn code(&self) -> (c: i32)
        ensures
            c == exception_code(*self),
    {
        match self {
            HddsRpcExceptionCode::HddsRpcOk => 0,
            HddsRpcExceptionCode::HddsRpcUnsupportedService => 1,
            HddsRpcExceptionCode::HddsRpcUnsupportedMethod => 2,
            HddsRpcExceptionCode::HddsRpcInvalidArgument => 3,
            HddsRpcExceptionCode::HddsRpcServiceUnavailable => 4,
            HddsRpcExceptionCode::HddsRpcTimeout => 5,
            HddsRpcExceptionCode::HddsRpcInternalError => 6,
            HddsRpcExceptionCode::HddsRpcUnknown => -1,
        }
    }

    /// The exception with a C API value, if any.
    pub fn from_code(c: i32) -> (e: Option<HddsRpcExceptionCode>)
        ensures
            match e {
                Some(x) => exception_code(x) == c,
                None => !(-1 <= c <= 6),
            },
    {
        match c {
            0 => Some(HddsRpcExceptionCode::HddsRpcOk),
            1 => Some(HddsRpcExceptionCode::HddsRpcUnsupportedService),
            2 => Some(HddsRpcExceptionCode::HddsRpcUnsupportedMethod),
            3 => Some(HddsRpcExceptionCode::HddsRpcInvalidArgument),
            4 => Some(HddsRpcExceptionCode::HddsRpcServiceUnavailable),
            5 => Some(HddsRpcExceptionCode::HddsRpcTimeout),
            6 => Some(HddsRpcExceptionCode::HddsRpcInternalError),
            -1 => Some(HddsRpcExceptionCode::HddsRpcUnknown),
            _ => None,
        }
    }
}

/// Reading back a code's value gives the code.
pub proof fn law_exception_code_roundtrip(e: HddsRpcExceptionCode)
    ensures
        -1 <= exception_code(e) <= 6,
        forall|x: HddsRpcExceptionCode| exception_code(x) == exception_code(e) ==> x == e,
{
}

// ---------------------------------------------------------------------------
// Text handed out to C buffers

/// A buffer after `bytes` were copied in, cut to leave room for the zero
/// byte that follows them; an empty buffer stays as it is.
pub open spec fn copied_into(buf: Seq<u8>, bytes: Seq<u8>) -> Seq<u8> {
    if buf.len() == 0 {
        buf
    } else {
        let n = if bytes.len() < buf.len() - 1 { bytes.len() as int } else { buf.len() - 1 };
        bytes.take(n) + seq![0u8] + buf.skip(n + 1)
    }
}

/// Copies the UTF-8 bytes of `s` into `out_buf` as a zero-terminated C
/// string, cut to fit; an empty buffer is left as it is. Returns the number
/// of bytes of `s`, whether or not they all fitted.
pub fn copy_str_to_buf(s: &str, out_buf: &mut [u8]) -> (needed: usize)
    ensures
        needed == s.spec_bytes().len(),
        final(out_buf)@ == copied_into(old(out_buf)@, s.spec_bytes()),
{
    let bytes = s.as_bytes();
    let needed = bytes.len();
    let cap = out_buf.len();
    if cap > 0 {
        let copy_len = if needed < cap - 1 { needed } else { cap - 1 };
        let ghost orig = out_buf@;
        let mut i: usize = 0;
        while i < copy_len
            invariant
                i <= copy_len,
                copy_len < cap,
                copy_len <= bytes@.len(),
                cap == orig.len(),
                out_buf@.len() == cap,
                forall|j: int| 0 <= j < i ==> #[trigger] out_buf@[j] == bytes@[j],
                forall|j: int| i <= j < cap ==> #[trigger] out_buf@[j] == orig[j],
            decreases copy_len - i,
        {
            out_buf[i] = bytes[i];
            i = i + 1;
        }
        out_buf[copy_len] = 0;
        assert(out_buf@ =~= copied_into(orig, bytes@));
    }
    needed
}


// ---------------------------------------------------------------------------
// Dynamic type of a message member

/// A primitive element type of the dynamic type system.
#[derive(Debug, Clone, Copy, PartialEq, Eq)]
pub enum PrimitiveKind {
    F32,
    F64,
    LongDouble,
    Char,
    Bool,
    U8,
    I8,
    U16,
    I16,
    U32,
    I32,
    U64,
    I64,
    String { max_length: Option<usize> },
    WString { max_length: Option<usize> },
}

/// The element type of a member: a primitive, or a nested message whose
/// type is described from its own members.
#[derive(Debug, Clone, Copy, PartialEq, Eq)]
pub enum ElementType {
    Primitive(PrimitiveKind),
    Message,
}

/// How many elements a member holds.
#[derive(Debug, Clone, Copy, PartialEq, Eq)]
pub enum FieldShape {
    /// One element.
    Single,
    /// A sequence of any length.
    UnboundedSequence,
    /// A sequence of at most this many elements.
    BoundedSequence(usize),
    /// A fixed array of this many elements.
    Array(usize),
}

/// The dynamic type of a member.
#[derive(Debug, Clone, Copy, PartialEq, Eq)]
pub struct FieldDesc {
    pub element: ElementType,
    pub shape: FieldShape,
}

/// Why a member has no dynamic type.
#[derive(Debug, Clone, Copy, PartialEq, Eq)]
pub enum RosidlError {
    /// The member's type id is none the type system knows.
    UnsupportedType(u8),
}

/// The element type of a type id; a string bound of 0 means none.
pub open spec fn element_type(type_id: u8, string_upper_bound: usize) -> Option<ElementType> {
    let bound = if string_upper_bound > 0 { Some(string_upper_bound) } else { None };
    if type_id == ROS_TYPE_FLOAT {
        Some(ElementType::Primitive(PrimitiveKind::F32))
    } else if type_id == ROS_TYPE_DOUBLE {
        Some(ElementType::Primitive(PrimitiveKind::F64))
    } else if type_id == ROS_TYPE_CHAR {
        Some(ElementType::Primitive(PrimitiveKind::Char))
    } else if type_id == ROS_TYPE_WCHAR {
        Some(ElementType::Primitive(PrimitiveKind::U16))
    } else if type_id == ROS_TYPE_BOOLEAN {
        Some(ElementType::Primitive(PrimitiveKind::Bool))
    } else if type_id == ROS_TYPE_OCTET || type_id == ROS_TYPE_UINT8 {
        Some(ElementType::Primitive(PrimitiveKind::U8))
    } else if type_id == ROS_TYPE_INT8 {
        Some(ElementType::Primitive(PrimitiveKind::I8))
    } else if type_id == ROS_TYPE_UINT16 {
        Some(ElementType::Primitive(PrimitiveKind::U16))
    } else if type_id == ROS_TYPE_INT16 {
        Some(ElementType::Primitive(PrimitiveKind::I16))
    } else if type_id == ROS_TYPE_UINT32 {
        Some(ElementType::Primitive(PrimitiveKind::U32))
    } else if type_id == ROS_TYPE_INT32 {
        Some(ElementType::Primitive(PrimitiveKind::I32))
    } else if type_id == ROS_TYPE_UINT64 {
        Some(ElementType::Primitive(PrimitiveKind::U64))
    } else if type_id == ROS_TYPE_INT64 {
        Some(ElementType::Primitive(PrimitiveKind::I64))
    } else if type_id == ROS_TYPE_STRING {
        Some(ElementType::Primitive(PrimitiveKind::String { max_length: bound }))
    } else if type_id == ROS_TYPE_WSTRING {
        Some(ElementType::Primitive(PrimitiveKind::WString { max_length: bound }))
    } else if type_id == ROS_TYPE_MESSAGE {
        Some(ElementType::Message)
    } else if type_id == ROS_TYPE_LONG_DOUBLE {
        Some(ElementType::Primitive(PrimitiveKind::LongDouble))
    } else {
        None
    }
}

/// The shape of a member: a bounded member is a sequence (unbounded when
/// its size is 0); another array is a fixed array when its size is
/// positive, else a sequence.
pub open spec fn field_shape(is_array: bool, array_size: usize, is_upper_bound: bool) -> FieldShape {
    if !is_array {
        FieldShape::Single
    } else if is_upper_bound {
        if array_size == 0 {
            FieldShape::UnboundedSequence
        } else {
            FieldShape::BoundedSequence(array_size)
        }
    } else if array_size > 0 {
        FieldShape::Array(array_size)
    } else {
        FieldShape::UnboundedSequence
    }
}

fn element_type_of(type_id: u8, string_upper_bound: usize) -> (r: Option<ElementType>)
    ensures
        r == element_type(type_id, string_upper_bound),
{
    let bound = if string_upper_bound > 0 { Some(string_upper_bound) } else { None };
    if type_id == ROS_TYPE_FLOAT {
        Some(ElementType::Primitive(PrimitiveKind::F32))
    } else if type_id == ROS_TYPE_DOUBLE {
        Some(ElementType::Primitive(PrimitiveKind::F64))
    } else if type_id == ROS_TYPE_CHAR {
        Some(ElementType::Primitive(PrimitiveKind::Char))
    } else if type_id == ROS_TYPE_WCHAR {
        Some(ElementType::Primitive(PrimitiveKind::U16))
    } else if type_id == ROS_TYPE_BOOLEAN {
        Some(ElementType::Primitive(PrimitiveKind::Bool))
    } else if type_id == ROS_TYPE_OCTET || type_id == ROS_TYPE_UINT8 {
        Some(ElementType::Primitive(PrimitiveKind::U8))
    } else if type_id == ROS_TYPE_INT8 {
        Some(ElementType::Primitive(PrimitiveKind::I8))
    } else if type_id == ROS_TYPE_UINT16 {
        Some(ElementType::Primitive(PrimitiveKind::U16))
    } else if type_id == ROS_TYPE_INT16 {
        Some(ElementType::Primitive(PrimitiveKind::I16))
    } else if type_id == ROS_TYPE_UINT32 {
        Some(ElementType::Primitive(PrimitiveKind::U32))
    } else if type_id == ROS_TYPE_INT32 {
        Some(ElementType::Primitive(PrimitiveKind::I32))
    } else if type_id == ROS_TYPE_UINT64 {
        Some(ElementType::Primitive(PrimitiveKind::U64))
    } else if type_id == ROS_TYPE_INT64 {
        Some(ElementType::Primitive(PrimitiveKind::I64))
    } else if type_id == ROS_TYPE_STRING {
        Some(ElementType::Primitive(PrimitiveKind::String { max_length: bound }))
    } else if type_id == ROS_TYPE_WSTRING {
        Some(ElementType::Primitive(PrimitiveKind::WString { max_length: bound }))
    } else if type_id == ROS_TYPE_MESSAGE {
        Some(ElementType::Message)
    } else if type_id == ROS_TYPE_LONG_DOUBLE {
        Some(ElementType::Primitive(PrimitiveKind::LongDouble))
    } else {
        None
    }
}

/// The dynamic type of a member from its introspection data: its element
/// type and its shape. An unknown type id is refused.
pub fn field_descriptor(
    type_id: u8,
    is_array: bool,
    array_size: usize,
    is_upper_bound: bool,
    string_upper_bound: usize,
) -> (r: Result<FieldDesc, RosidlError>)
    ensures
        match element_type(type_id, string_upper_bound) {
            Some(e) => r == Ok::<FieldDesc, RosidlError>(
                FieldDesc { element: e, shape: field_shape(is_array, array_size, is_upper_bound) },
            ),
            None => r == Err::<FieldDesc, RosidlError>(RosidlError::UnsupportedType(type_id)),
        },
{
    let element = match element_type_of(type_id, string_upper_bound) {
        Some(e) => e,
        None => return Err(RosidlError::UnsupportedType(type_id)),
    };
    let shape = if !is_array {
        FieldShape::Single
    } else if is_upper_bound {
        if array_size == 0 {
            FieldShape::UnboundedSequence
        } else {
            FieldShape::BoundedSequence(array_size)
        }
    } else if array_size > 0 {
        FieldShape::Array(array_size)
    } else {
        FieldShape::UnboundedSequence
    };
    Ok(FieldDesc { element, shape })
}

} // verus!
