//! Layout helpers of the ROS 2 middleware layer: the in-memory size of a
//! primitive message member, the alignment of offsets, and the GUID that
//! names a topic's shared-memory segment.
use vstd::prelude::*;
use vstd::string::StringSliceAdditionalSpecFns;
use crate::cdr::{cursor_aligned, le4, lemma_align_pow};
use crate::ros_introspection::{
    ROS_TYPE_FLOAT, ROS_TYPE_DOUBLE, ROS_TYPE_LONG_DOUBLE, ROS_TYPE_CHAR, ROS_TYPE_WCHAR,
    ROS_TYPE_BOOLEAN, ROS_TYPE_OCTET, ROS_TYPE_UINT8, ROS_TYPE_INT8, ROS_TYPE_UINT16,
    ROS_TYPE_INT16, ROS_TYPE_UINT32, ROS_TYPE_INT32, ROS_TYPE_UINT64, ROS_TYPE_INT64,
    LONG_DOUBLE_SIZE,
};

verus! {

/// The size in memory of a primitive member of a type id; strings, wide
/// strings and nested messages have none.
pub open spec fn primitive_size_of(t: u8) -> Option<usize> {
    if t == ROS_TYPE_BOOLEAN || t == ROS_TYPE_CHAR || t == ROS_TYPE_OCTET || t == ROS_TYPE_UINT8
        || t == ROS_TYPE_INT8 {
        Some(1)
    } else if t == ROS_TYPE_UINT16 || t == ROS_TYPE_INT16 || t == ROS_TYPE_WCHAR {
        Some(2)
    } else if t == ROS_TYPE_FLOAT || t == ROS_TYPE_UINT32 || t == ROS_TYPE_INT32 {
        Some(4)
    } else if t == ROS_TYPE_DOUBLE || t == ROS_TYPE_UINT64 || t == ROS_TYPE_INT64 {
        Some(8)
    } else if t == ROS_TYPE_LONG_DOUBLE {
        Some(LONG_DOUBLE_SIZE)
    } else {
        None
    }
}

/// The size in memory of a primitive member.
pub fn primitive_size(type_id: u8) -> (r: Option<usize>)
    ensures
        r == primitive_size_of(type_id),
{
    if type_id == ROS_TYPE_BOOLEAN || type_id == ROS_TYPE_CHAR || type_id == ROS_TYPE_OCTET
        || type_id == ROS_TYPE_UINT8 || type_id == ROS_TYPE_INT8 {
        Some(1)
    } else if type_id == ROS_TYPE_UINT16 || type_id == ROS_TYPE_INT16 || type_id == ROS_TYPE_WCHAR {
        Some(2)
    } else if type_id == ROS_TYPE_FLOAT || type_id == ROS_TYPE_UINT32 || type_id == ROS_TYPE_INT32 {
        Some(4)
    } else if type_id == ROS_TYPE_DOUBLE || type_id == ROS_TYPE_UINT64 || type_id == ROS_TYPE_INT64 {
        Some(8)
    } else if type_id == ROS_TYPE_LONG_DOUBLE {
        Some(LONG_DOUBLE_SIZE)
    } else {
        None
    }
}

/// `offset` rounded up by the alignment mask: for a power of two, the
/// least multiple of `alignment` not below `offset`. Alignments 0 and 1
/// leave the offset as it is.
pub fn align_offset(offset: usize, alignment: usize) -> (r: usize)
    requires
        alignment <= 1 || offset + alignment <= usize::MAX,
    ensures
        r == cursor_aligned(offset, alignment),
        alignment == 2 || alignment == 4 || alignment == 8 || alignment == 16 ==> {
            &&& r % alignment == 0
            &&& offset <= r < offset + alignment
        },
{
    if alignment <= 1 {
        offset
    } else {
        proof {
            if alignment == 2 || alignment == 4 || alignment == 8 || alignment == 16 {
                lemma_align_pow(offset, alignment, (alignment - 1) as usize);
            }
        }
        (offset + alignment - 1) & !(alignment - 1)
    }
}

/// `x * y` modulo 2^32.
pub open spec fn mul_wrap(x: u32, y: u32) -> u32 {
    ((x as nat * y as nat) % 0x1_0000_0000) as u32
}

/// The 32-bit FNV-1a hash of a byte string.
pub open spec fn fnv1a(bytes: Seq<u8>) -> u32
    decreases bytes.len(),
{
    if bytes.len() == 0 {
        2166136261
    } else {
        mul_wrap(fnv1a(bytes.drop_last()) ^ (bytes.last() as u32), 16777619)
    }
}

/// The GUID of a hash: the hash and three further products with the golden
/// ratio constant, each little-endian.
pub open spec fn guid_of_hash(h: u32) -> Seq<u8> {
    let h2 = mul_wrap(h, 2654435761);
    let h3 = mul_wrap(h2, 2654435761);
    let h4 = mul_wrap(h3, 2654435761);
    le4(h) + le4(h2) + le4(h3) + le4(h4)
}

/// The GUID that names a topic's shared-memory segment: the FNV-1a hash of
/// the topic's UTF-8 bytes, spread over 16 bytes.
pub fn topic_to_shm_guid(topic: &str) -> (guid: [u8; 16])
    ensures
        guid@ == guid_of_hash(fnv1a(topic.spec_bytes())),
{
    let bytes = topic.as_bytes();
    let mut h: u32 = 2166136261;
    let mut i: usize = 0;
    while i < bytes.len()
        invariant
            i <= bytes@.len(),
            h == fnv1a(bytes@.take(i as int)),
        decreases bytes@.len() - i,
    {
        assert(bytes@.take(i + 1).drop_last() =~= bytes@.take(i as int));
        h = (h ^ (bytes[i] as u32)).wrapping_mul(16777619);
        i = i + 1;
    }
    assert(bytes@.take(i as int) =~= bytes@);
    let h2 = h.wrapping_mul(2654435761);
    let h3 = h2.wrapping_mul(2654435761);
    let h4 = h3.wrapping_mul(2654435761);
    let guid: [u8; 16] = [
        (h & 0xff) as u8,
        ((h >> 8u32) & 0xff) as u8,
        ((h >> 16u32) & 0xff) as u8,
        ((h >> 24u32) & 0xff) as u8,
        (h2 & 0xff) as u8,
        ((h2 >> 8u32) & 0xff) as u8,
        ((h2 >> 16u32) & 0xff) as u8,
        ((h2 >> 24u32) & 0xff) as u8,
        (h3 & 0xff) as u8,
        ((h3 >> 8u32) & 0xff) as u8,
        ((h3 >> 16u32) & 0xff) as u8,
        ((h3 >> 24u32) & 0xff) as u8,
        (h4 & 0xff) as u8,
        ((h4 >> 8u32) & 0xff) as u8,
        ((h4 >> 16u32) & 0xff) as u8,
        ((h4 >> 24u32) & 0xff) as u8,
    ];
    assert(guid@ =~= le4(h) + le4(h2) + le4(h3) + le4(h4));
    guid
}

} // verus!
