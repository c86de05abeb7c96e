//! The log collector's logic: decoding ROS 2 `rcl_interfaces/Log` samples
//! into entries, and filtering, formatting and counting them.
use vstd::prelude::*;
use vstd::string::{StrSliceExecFns, StringExecFns};
use chrono::TimeZone;
use crate::logger::{LogEntry, LogFilter, LogLevel, LogTimestamp, spec_filter_matches};
use crate::logger_format::{Formatter, formatted, formatter_accepts};
use crate::glob::{spec_topic_matches, topic_matches};
use crate::text::str_eq;
use crate::discovery_registry::strings_view;
use crate::cdr::{le4, lemma_i32_roundtrip, lemma_le4_roundtrip};
use crate::ros_codec::{
    RclLogView, align4, cdr_string_fits, cdr_text_end, holds_cdr_text, law_log_wire_layout, log_fits,
    spec_encode_log, w_log,
};

verus! {

// ---------------------------------------------------------------------------
// Encapsulation header

/// The payload after the CDR encapsulation header and its byte order:
/// representation 0 or 2 is big endian, 1 or 3 little endian; a buffer
/// shorter than the header or with another representation is taken whole,
/// as little endian.
pub open spec fn spec_strip_encapsulation(buf: Seq<u8>) -> (Seq<u8>, bool) {
    if buf.len() < 4 {
        (buf, true)
    } else {
        let rep = (buf[0] as int) * 256 + buf[1] as int;
        if rep == 0 || rep == 2 {
            (buf.skip(4), false)
        } else if rep == 1 || rep == 3 {
            (buf.skip(4), true)
        } else {
            (buf, true)
        }
    }
}

pub fn strip_cdr_encapsulation(buf: &[u8]) -> (r: (&[u8], bool))
    ensures
        (r.0@, r.1) == spec_strip_encapsulation(buf@),
{
    if buf.len() < 4 {
        return (buf, true);
    }
    let rep_id: u16 = (buf[0] as u16) * 256 + buf[1] as u16;
    if rep_id == 0 || rep_id == 2 {
        (&buf[4..buf.len()], false)
    } else if rep_id == 1 || rep_id == 3 {
        (&buf[4..buf.len()], true)
    } else {
        (buf, true)
    }
}

// ---------------------------------------------------------------------------
// Reader with either byte order

/// `String::from_utf8_lossy`: the text of the bytes, with U+FFFD for
/// invalid sequences.
pub uninterp spec fn utf8_lossy(bytes: Seq<u8>) -> Seq<char>;

/// `String::from_utf8_lossy`.
#[verifier::external_body]
pub(crate) fn from_utf8_lossy(bytes: &[u8]) -> (r: String)
    ensures
        r@ == utf8_lossy(bytes@),
        bytes@.len() == 0 ==> r@.len() == 0,
{
    String::from_utf8_lossy(bytes).to_string()
}

pub open spec fn u32_of(b: Seq<u8>, little_endian: bool) -> u32 {
    if little_endian {
        (b[0] as u32) | ((b[1] as u32) << 8u32) | ((b[2] as u32) << 16u32) | ((b[3] as u32)
            << 24u32)
    } else {
        (b[3] as u32) | ((b[2] as u32) << 8u32) | ((b[1] as u32) << 16u32) | ((b[0] as u32)
            << 24u32)
    }
}

/// The offset after aligning `p` up to a multiple of `a`, if it is in `len`.
pub open spec fn sp_log_align(len: int, p: int, a: int) -> Option<int> {
    let aligned = if p % a == 0 {
        p
    } else {
        p + a - p % a
    };
    if aligned > len {
        None
    } else {
        Some(aligned)
    }
}

pub open spec fn sp_log_u32_raw(d: Seq<u8>, p: int, le: bool) -> Option<(u32, int)> {
    if p + 4 > d.len() {
        None
    } else {
        Some((u32_of(d.subrange(p, p + 4), le), p + 4))
    }
}

pub open spec fn sp_log_u32(d: Seq<u8>, p: int, le: bool) -> Option<(u32, int)> {
    match sp_log_align(d.len() as int, p, 4) {
        None => None,
        Some(p1) => sp_log_u32_raw(d, p1, le),
    }
}

pub open spec fn sp_log_u8(d: Seq<u8>, p: int) -> Option<(u8, int)> {
    if p + 1 > d.len() {
        None
    } else {
        Some((d[p], p + 1))
    }
}

/// The bytes of a string without a trailing zero.
pub open spec fn without_terminator(raw: Seq<u8>) -> Seq<u8> {
    if raw.len() > 0 && raw.last() == 0 {
        raw.drop_last()
    } else {
        raw
    }
}

/// A CDR string: aligned length, then that many bytes (the last of which,
/// if zero, is dropped).
pub open spec fn sp_log_string(d: Seq<u8>, p: int, le: bool) -> Option<(Seq<u8>, int)> {
    match sp_log_u32(d, p, le) {
        None => None,
        Some((n, p1)) => if n == 0 {
            Some((Seq::empty(), p1))
        } else if p1 + n > d.len() {
            None
        } else {
            Some((without_terminator(d.subrange(p1, p1 + n)), p1 + n))
        },
    }
}

/// A CDR reader over a buffer of either byte order.
pub struct CdrCursor<'a> {
    buf: &'a [u8],
    pos: usize,
    little_endian: bool,
}

impl<'a> CdrCursor<'a> {
    #[verifier::type_invariant]
    spec fn inv(&self) -> bool {
        self.pos <= self.buf@.len()
    }

    pub closed spec fn bytes(&self) -> Seq<u8> {
        self.buf@
    }

    pub closed spec fn position(&self) -> int {
        self.pos as int
    }

    pub closed spec fn is_little_endian(&self) -> bool {
        self.little_endian
    }

    pub fn new(buf: &'a [u8], little_endian: bool) -> (c: Self)
        ensures
            c.bytes() == buf@,
            c.position() == 0,
            c.is_little_endian() == little_endian,
    {
        CdrCursor { buf, pos: 0, little_endian }
    }

    /// Moves to the next multiple of `alignment` (1, 2, 4 or 8).
    pub fn align(&mut self, alignment: usize) -> (r: Option<()>)
        requires
            alignment == 1 || alignment == 2 || alignment == 4 || alignment == 8,
        ensures
            final(self).bytes() == old(self).bytes(),
            final(self).is_little_endian() == old(self).is_little_endian(),
            match sp_log_align(old(self).bytes().len() as int, old(self).position(), alignment as int) {
                Some(p) => r is Some && final(self).position() == p,
                None => r is None,
            },
    {
        proof {
            use_type_invariant(&*self);
        }
        let len = self.buf.len();
        let rem = self.pos % alignment;
        let pad = if rem == 0 {
            0
        } else {
            alignment - rem
        };
        if pad > len - self.pos {
            return None;
        }
        let aligned = self.pos + pad;
        self.pos = aligned;
        Some(())
    }

    pub fn read_u8(&mut self) -> (r: Option<u8>)
        ensures
            final(self).bytes() == old(self).bytes(),
            final(self).is_little_endian() == old(self).is_little_endian(),
            match sp_log_u8(old(self).bytes(), old(self).position()) {
                Some((v, p)) => r == Some(v) && final(self).position() == p,
                None => r is None,
            },
    {
        proof {
            use_type_invariant(&*self);
        }
        if self.pos >= self.buf.len() {
            return None;
        }
        let v = self.buf[self.pos];
        self.pos = self.pos + 1;
        Some(v)
    }

    pub fn read_u32_raw(&mut self) -> (r: Option<u32>)
        ensures
            final(self).bytes() == old(self).bytes(),
            final(self).is_little_endian() == old(self).is_little_endian(),
            match sp_log_u32_raw(old(self).bytes(), old(self).position(), old(self).is_little_endian()) {
                Some((v, p)) => r == Some(v) && final(self).position() == p,
                None => r is None,
            },
    {
        proof {
            use_type_invariant(&*self);
        }
        if 4 > self.buf.len() - self.pos {
            return None;
        }
        let p = self.pos;
        let b0 = self.buf[p];
        let b1 = self.buf[p + 1];
        let b2 = self.buf[p + 2];
        let b3 = self.buf[p + 3];
        self.pos = p + 4;
        proof {
            let s = self.buf@.subrange(p as int, p + 4);
            assert(s[0] == b0 && s[1] == b1 && s[2] == b2 && s[3] == b3);
        }
        if self.little_endian {
            Some((b0 as u32) | ((b1 as u32) << 8u32) | ((b2 as u32) << 16u32) | ((b3 as u32)
                << 24u32))
        } else {
            Some((b3 as u32) | ((b2 as u32) << 8u32) | ((b1 as u32) << 16u32) | ((b0 as u32)
                << 24u32))
        }
    }

    pub fn read_i32_raw(&mut self) -> (r: Option<i32>)
        ensures
            final(self).bytes() == old(self).bytes(),
            final(self).is_little_endian() == old(self).is_little_endian(),
            match sp_log_u32_raw(old(self).bytes(), old(self).position(), old(self).is_little_endian()) {
                Some((v, p)) => r == Some(v as i32) && final(self).position() == p,
                None => r is None,
            },
    {
        match self.read_u32_raw() {
            Some(v) => Some(v as i32),
            None => None,
        }
    }

    pub fn read_u32(&mut self) -> (r: Option<u32>)
        ensures
            final(self).bytes() == old(self).bytes(),
            final(self).is_little_endian() == old(self).is_little_endian(),
            match sp_log_u32(old(self).bytes(), old(self).position(), old(self).is_little_endian()) {
                Some((v, p)) => r == Some(v) && final(self).position() == p,
                None => r is None,
            },
    {
        self.align(4)?;
        self.read_u32_raw()
    }

    pub fn read_i32(&mut self) -> (r: Option<i32>)
        ensures
            final(self).bytes() == old(self).bytes(),
            final(self).is_little_endian() == old(self).is_little_endian(),
            match sp_log_u32(old(self).bytes(), old(self).position(), old(self).is_little_endian()) {
                Some((v, p)) => r == Some(v as i32) && final(self).position() == p,
                None => r is None,
            },
    {
        self.align(4)?;
        self.read_i32_raw()
    }

    /// Reads a CDR string; its bytes are decoded as UTF-8, invalid
    /// sequences replaced.
    pub fn read_string(&mut self) -> (r: Option<String>)
        ensures
            final(self).bytes() == old(self).bytes(),
            final(self).is_little_endian() == old(self).is_little_endian(),
            match sp_log_string(old(self).bytes(), old(self).position(), old(self).is_little_endian()) {
                Some((s, p)) => r is Some && r->Some_0@ == (if s.len() == 0 {
                    Seq::<char>::empty()
                } else {
                    utf8_lossy(s)
                }) && final(self).position() == p,
                None => r is None,
            },
    {
        proof {
            use_type_invariant(&*self);
        }
        self.align(4)?;
        let len = self.read_u32_raw()? as usize;
        proof {
            use_type_invariant(&*self);
        }
        if len == 0 {
            return Some(String::new());
        }
        if len > self.buf.len() - self.pos {
            return None;
        }
        let p = self.pos;
        let raw = &self.buf[p..p + len];
        self.pos = p + len;
        let trimmed = if raw[len - 1] == 0 {
            &raw[0..len - 1]
        } else {
            raw
        };
        assert(trimmed@ =~= without_terminator(raw@));
        let text = from_utf8_lossy(trimmed);
        proof {
            if trimmed@.len() == 0 {
                assert(text@ =~= Seq::<char>::empty());
            }
        }
        Some(text)
    }
}

// ---------------------------------------------------------------------------
// rcl_interfaces/Log samples

/// Whether chrono's `Utc.timestamp_opt(secs, nanos)` gives a single instant.
pub uninterp spec fn utc_instant_exists(secs: i64, nanos: u32) -> bool;

/// `Utc.timestamp_opt(secs, nanos).single().is_some()`.
#[verifier::external_body]
fn utc_timestamp_valid(secs: i64, nanos: u32) -> (r: bool)
    ensures
        r == utc_instant_exists(secs, nanos),
{
    chrono::Utc.timestamp_opt(secs, nanos).single().is_some()
}

/// The current UTC time (`Utc::now()`); nothing is promised of its value.
#[verifier::external_body]
fn utc_now() -> (t: LogTimestamp) {
    let now = chrono::Utc::now();
    LogTimestamp { secs: now.timestamp(), nanos: now.timestamp_subsec_nanos() }
}

impl LogEntry {
    /// An entry stamped with the current UTC time, with the given level and
    /// message and no other fields.
    pub fn new(level: LogLevel, message: String) -> (e: LogEntry)
        ensures
            e.level == level,
            e.message@ == message@,
            e.participant_id@ == Seq::<char>::empty(),
            e.topic is None,
            e.node_name is None,
            e.file is None,
            e.line is None,
            e.function is None,
    {
        LogEntry::at(utc_now(), level, message)
    }
}

impl Default for LogEntry {
    /// An Info entry stamped now, with an empty message and no other fields.
    fn default() -> (e: LogEntry)
        ensures
            e.level == LogLevel::Info,
            e.message@ == Seq::<char>::empty(),
            e.participant_id@ == Seq::<char>::empty(),
            e.topic is None,
            e.node_name is None,
            e.file is None,
            e.line is None,
            e.function is None,
    {
        LogEntry::new(LogLevel::Info, String::new())
    }
}

/// The fields of a decoded log sample.
pub struct Ros2LogFields {
    pub sec: i32,
    pub nanosec: u32,
    pub level: u8,
    pub name: Seq<u8>,
    pub msg: Seq<u8>,
    pub file: Seq<u8>,
    pub function: Seq<u8>,
    pub line: u32,
}

/// Decodes a sample: stamp (sec, nanosec), level, name, msg, file,
/// function, line, after the encapsulation header.
pub open spec fn spec_ros2_log_fields(data: Seq<u8>) -> Option<Ros2LogFields> {
    let (d, le) = spec_strip_encapsulation(data);
    match sp_log_u32(d, 0, le) {
        None => None,
        Some((sec, p1)) => match sp_log_u32(d, p1, le) {
            None => None,
            Some((nanosec, p2)) => match sp_log_u8(d, p2) {
                None => None,
                Some((level, p3)) => match sp_log_string(d, p3, le) {
                    None => None,
                    Some((name, p4)) => match sp_log_string(d, p4, le) {
                        None => None,
                        Some((msg, p5)) => match sp_log_string(d, p5, le) {
                            None => None,
                            Some((file, p6)) => match sp_log_string(d, p6, le) {
                                None => None,
                                Some((function, p7)) => match sp_log_u32(d, p7, le) {
                                    None => None,
                                    Some((line, _)) => Some(
                                        Ros2LogFields {
                                            sec: sec as i32,
                                            nanosec,
                                            level,
                                            name,
                                            msg,
                                            file,
                                            function,
                                            line,
                                        },
                                    ),
                                },
                            },
                        },
                    },
                },
            },
        },
    }
}

proof fn lemma_log_u32_at(d: Seq<u8>, p: int, v: u32)
    requires
        0 <= p,
        align4(p) + 4 <= d.len(),
        d.subrange(align4(p), align4(p) + 4) == le4(v),
    ensures
        sp_log_u32(d, p, true) == Some((v, align4(p) + 4)),
{
    let q = align4(p);
    assert(q == if p % 4 == 0 { p } else { p + 4 - p % 4 });
    let x = d.subrange(q, q + 4);
    lemma_le4_roundtrip(v);
    assert(u32_of(x, true) == v);
}

proof fn lemma_log_string_at(d: Seq<u8>, p: int, s: Seq<u8>)
    requires
        holds_cdr_text(d, p, s),
        cdr_string_fits(s),
    ensures
        sp_log_string(d, p, true) == Some((s, cdr_text_end(p, s))),
{
    let q = align4(p);
    lemma_log_u32_at(d, p, (s.len() + 1) as u32);
    let raw = d.subrange(q + 4, q + 4 + s.len() + 1);
    assert(raw =~= s.push(0u8));
    assert(raw.drop_last() =~= s);
}

proof fn lemma_fields_from_reads(data: Seq<u8>, d: Seq<u8>, m: RclLogView, p_msg: int, p_file: int, p_function: int, p_end: int)
    requires
        spec_strip_encapsulation(data) == (d, true),
        sp_log_u32(d, 0, true) == Some((m.stamp.sec as u32, 4int)),
        sp_log_u32(d, 4, true) == Some((m.stamp.nanosec, 8int)),
        sp_log_u8(d, 8) == Some((m.level, 9int)),
        sp_log_string(d, 9, true) == Some((m.name, p_msg)),
        sp_log_string(d, p_msg, true) == Some((m.msg, p_file)),
        sp_log_string(d, p_file, true) == Some((m.file, p_function)),
        sp_log_string(d, p_function, true) == Some((m.function, p_end)),
        sp_log_u32(d, p_end, true) matches Some((l, _)) && l == m.line,
        (m.stamp.sec as u32) as i32 == m.stamp.sec,
    ensures
        spec_ros2_log_fields(data) == Some(
            (Ros2LogFields {
                sec: m.stamp.sec,
                nanosec: m.stamp.nanosec,
                level: m.level,
                name: m.name,
                msg: m.msg,
                file: m.file,
                function: m.function,
                line: m.line,
            }),
        ),
{
}

proof fn lemma_reads_of_encoded_log(m: RclLogView)
    requires
        log_fits(m),
        w_log(m).len() + 16 <= usize::MAX,
    ensures
        spec_encode_log(m) is Ok,
        ({
            let d = spec_encode_log(m)->Ok_0;
            let p_msg = cdr_text_end(9, m.name);
            let p_file = cdr_text_end(p_msg, m.msg);
            let p_function = cdr_text_end(p_file, m.file);
            let p_end = cdr_text_end(p_function, m.function);
            &&& sp_log_u32(d, 0, true) == Some((m.stamp.sec as u32, 4int))
            &&& sp_log_u32(d, 4, true) == Some((m.stamp.nanosec, 8int))
            &&& sp_log_u8(d, 8) == Some((m.level, 9int))
            &&& sp_log_string(d, 9, true) == Some((m.name, p_msg))
            &&& sp_log_string(d, p_msg, true) == Some((m.msg, p_file))
            &&& sp_log_string(d, p_file, true) == Some((m.file, p_function))
            &&& sp_log_string(d, p_function, true) == Some((m.function, p_end))
            &&& sp_log_u32(d, p_end, true) == Some((m.line, align4(p_end) + 4))
        }),
{
    law_log_wire_layout(m);
    let d = spec_encode_log(m)->Ok_0;
    let p_msg = cdr_text_end(9, m.name);
    let p_file = cdr_text_end(p_msg, m.msg);
    let p_function = cdr_text_end(p_file, m.file);
    let p_end = cdr_text_end(p_function, m.function);
    lemma_log_u32_at(d, 0, m.stamp.sec as u32);
    lemma_log_u32_at(d, 4, m.stamp.nanosec);
    lemma_log_string_at(d, 9, m.name);
    lemma_log_string_at(d, p_msg, m.msg);
    lemma_log_string_at(d, p_file, m.file);
    lemma_log_string_at(d, p_function, m.function);
    lemma_log_u32_at(d, p_end, m.line);
}

/// The collector reads a log sample as the codec writes it: behind a
/// little-endian encapsulation header, the bytes of an encoded
/// `rcl_interfaces/Log` decode to its stamp, level, logger name, message
/// text, file, function and line, each to its own field.
pub proof fn law_collector_reads_encoded_log(m: RclLogView)
    requires
        log_fits(m),
        w_log(m).len() + 16 <= usize::MAX,
    ensures
        spec_encode_log(m) is Ok,
        spec_ros2_log_fields(seq![0u8, 1u8, 0u8, 0u8] + spec_encode_log(m)->Ok_0) == Some(
            (Ros2LogFields {
                sec: m.stamp.sec,
                nanosec: m.stamp.nanosec,
                level: m.level,
                name: m.name,
                msg: m.msg,
                file: m.file,
                function: m.function,
                line: m.line,
            }),
        ),
{
    lemma_reads_of_encoded_log(m);
    let d = spec_encode_log(m)->Ok_0;
    let data = seq![0u8, 1u8, 0u8, 0u8] + d;
    assert(data.skip(4) =~= d);
    assert(spec_strip_encapsulation(data) == (d, true));
    lemma_i32_roundtrip(m.stamp.sec);
    let p_msg = cdr_text_end(9, m.name);
    let p_file = cdr_text_end(p_msg, m.msg);
    let p_function = cdr_text_end(p_file, m.file);
    let p_end = cdr_text_end(p_function, m.function);
    lemma_fields_from_reads(data, d, m, p_msg, p_file, p_function, p_end);
}

/// The text of string bytes (empty stays empty).
pub open spec fn text_of(b: Seq<u8>) -> Seq<char> {
    if b.len() == 0 {
        Seq::empty()
    } else {
        utf8_lossy(b)
    }
}

/// An optional field: absent when its text is empty.
pub open spec fn nonempty(t: Seq<char>) -> Option<Seq<char>> {
    if t.len() == 0 {
        None
    } else {
        Some(t)
    }
}

pub open spec fn opt_chars(o: Option<String>) -> Option<Seq<char>> {
    match o {
        Some(s) => Some(s@),
        None => None,
    }
}

fn optional(s: String) -> (r: Option<String>)
    ensures
        opt_chars(r) == nonempty(s@),
{
    if s.as_str().unicode_len() == 0 {
        None
    } else {
        Some(s)
    }
}

/// Decodes a ROS 2 `rcl_interfaces/Log` sample into a log entry for the
/// given participant and topic. Empty name, file and function fields are
/// left out; unknown level values become `Unset`. The time stamp is the
/// sample's when chrono accepts it, and the current time otherwise.
pub fn parse_ros2_log(data: &[u8], participant_id: &str, topic: &str) -> (r: Option<LogEntry>)
    ensures
        r is Some <==> spec_ros2_log_fields(data@) is Some,
        r matches Some(e) ==> {
            let f = spec_ros2_log_fields(data@)->Some_0;
            &&& e.level == LogLevel::from_code_spec(f.level)
            &&& e.message@ == text_of(f.msg)
            &&& e.participant_id@ == participant_id@
            &&& opt_chars(e.topic) == Some(topic@)
            &&& opt_chars(e.node_name) == nonempty(text_of(f.name))
            &&& opt_chars(e.file) == nonempty(text_of(f.file))
            &&& opt_chars(e.function) == nonempty(text_of(f.function))
            &&& e.line == Some(f.line)
            &&& utc_instant_exists(f.sec as i64, f.nanosec) ==> e.timestamp == LogTimestamp {
                secs: f.sec as i64,
                nanos: f.nanosec,
            }
        },
{
    let (payload, little_endian) = strip_cdr_encapsulation(data);
    let mut cursor = CdrCursor::new(payload, little_endian);
    let sec = cursor.read_i32()?;
    let nanosec = cursor.read_u32()?;
    let level = cursor.read_u8()?;
    let name = cursor.read_string()?;
    let msg = cursor.read_string()?;
    let file = cursor.read_string()?;
    let function = cursor.read_string()?;
    let line = cursor.read_u32()?;
    let timestamp = if utc_timestamp_valid(sec as i64, nanosec) {
        LogTimestamp { secs: sec as i64, nanos: nanosec }
    } else {
        utc_now()
    };
    Some(
        LogEntry {
            timestamp,
            level: LogLevel::from_code(level),
            message: msg,
            participant_id: String::from_str(participant_id),
            topic: Some(String::from_str(topic)),
            node_name: optional(name),
            file: optional(file),
            line: Some(line),
            function: optional(function),
        },
    )
}

// ---------------------------------------------------------------------------
// Filtering, formatting and counting

/// Collector statistics.
#[derive(Debug, Clone, Copy, PartialEq, Eq, Structural)]
pub struct CollectorStats {
    pub logs_received: u64,
    pub logs_written: u64,
    pub logs_filtered: u64,
    pub write_errors: u64,
}

/// The counters after an entry was received: counted as filtered out
/// unless it passed the filter.
pub open spec fn stats_after_process(s: CollectorStats, passed: bool) -> CollectorStats {
    CollectorStats {
        logs_received: (s.logs_received + 1) as u64,
        logs_filtered: if passed { s.logs_filtered } else { (s.logs_filtered + 1) as u64 },
        ..s
    }
}

/// The counters after the write of a passed entry's line was recorded.
pub open spec fn stats_after_write(s: CollectorStats, ok: bool) -> CollectorStats {
    if ok {
        CollectorStats { logs_written: (s.logs_written + 1) as u64, ..s }
    } else {
        CollectorStats { write_errors: (s.write_errors + 1) as u64, ..s }
    }
}

/// Every received entry is filtered out, written, or failed to write.
pub open spec fn stats_balanced(s: CollectorStats) -> bool {
    s.logs_received == s.logs_filtered + s.logs_written + s.write_errors
}

/// Each entry counts once: an entry filtered out keeps the counters
/// balanced, and so does a passed entry once its write is recorded, as
/// written or as failed.
pub proof fn law_collector_counts(s: CollectorStats, passed: bool, ok: bool)
    requires
        stats_balanced(s),
        s.logs_received < u64::MAX,
        s.logs_filtered < u64::MAX,
        s.logs_written < u64::MAX,
        s.write_errors < u64::MAX,
    ensures
        !passed ==> stats_balanced(stats_after_process(s, passed)),
        passed ==> stats_balanced(stats_after_write(stats_after_process(s, passed), ok)),
        stats_after_process(s, passed).logs_received == s.logs_received + 1,
{
}

impl Default for CollectorStats {
    fn default() -> (s: CollectorStats)
        ensures
            s == (CollectorStats {
                logs_received: 0,
                logs_written: 0,
                logs_filtered: 0,
                write_errors: 0,
            }),
    {
        CollectorStats { logs_received: 0, logs_written: 0, logs_filtered: 0, write_errors: 0 }
    }
}

/// Filters, formats and counts collected entries; writing the lines is the
/// caller's, who reports each outcome back with `record_write`.
pub struct LogProcessor {
    pub filter: LogFilter,
    pub formatter: Formatter,
    pub stats: CollectorStats,
}

impl LogProcessor {
    pub fn new(filter: LogFilter, formatter: Formatter) -> (p: LogProcessor)
        ensures
            p.filter == filter,
            p.formatter == formatter,
            p.stats == (CollectorStats {
                logs_received: 0,
                logs_written: 0,
                logs_filtered: 0,
                write_errors: 0,
            }),
            stats_balanced(p.stats),
    {
        LogProcessor { filter, formatter, stats: CollectorStats::default() }
    }

    /// Counts an entry as received; gives the line to write if the entry
    /// passes the filter, and otherwise counts it as filtered out.
    pub fn process(&mut self, entry: &LogEntry, procid: u32) -> (line: Option<String>)
        requires
            old(self).stats.logs_received < u64::MAX,
            old(self).stats.logs_filtered < u64::MAX,
            formatter_accepts(old(self).formatter, *entry),
        ensures
            final(self).stats == stats_after_process(old(self).stats, spec_filter_matches(old(self).filter, *entry)),
            final(self).filter == old(self).filter,
            final(self).formatter == old(self).formatter,
            final(self).stats.logs_received == old(self).stats.logs_received + 1,
            final(self).stats.logs_written == old(self).stats.logs_written,
            final(self).stats.write_errors == old(self).stats.write_errors,
            spec_filter_matches(old(self).filter, *entry) ==> line is Some && line->Some_0@
                == formatted(old(self).formatter, *entry, procid) && final(self).stats.logs_filtered
                == old(self).stats.logs_filtered,
            !spec_filter_matches(old(self).filter, *entry) ==> line is None
                && final(self).stats.logs_filtered == old(self).stats.logs_filtered + 1,
    {
        self.stats.logs_received = self.stats.logs_received + 1;
        if !self.filter.matches(entry) {
            self.stats.logs_filtered = self.stats.logs_filtered + 1;
            return None;
        }
        Some(self.formatter.format(entry, procid))
    }

    /// Counts the outcome of writing a line.
    pub fn record_write(&mut self, ok: bool)
        requires
            ok ==> old(self).stats.logs_written < u64::MAX,
            !ok ==> old(self).stats.write_errors < u64::MAX,
        ensures
            final(self).stats == stats_after_write(old(self).stats, ok),
            final(self).filter == old(self).filter,
            final(self).formatter == old(self).formatter,
            final(self).stats.logs_received == old(self).stats.logs_received,
            final(self).stats.logs_filtered == old(self).stats.logs_filtered,
            ok ==> final(self).stats.logs_written == old(self).stats.logs_written + 1
                && final(self).stats.write_errors == old(self).stats.write_errors,
            !ok ==> final(self).stats.write_errors == old(self).stats.write_errors + 1
                && final(self).stats.logs_written == old(self).stats.logs_written,
    {
        if ok {
            self.stats.logs_written = self.stats.logs_written + 1;
        } else {
            self.stats.write_errors = self.stats.write_errors + 1;
        }
    }
}


// ---------------------------------------------------------------------------
// Choosing the topics to read

/// The discovered names that match `pattern` and are not read yet, each once,
/// in the order they were discovered.
pub open spec fn names_to_subscribe(pattern: Seq<char>, discovered: Seq<Seq<char>>, subscribed: Seq<Seq<char>>) -> Seq<Seq<char>>
    decreases discovered.len(),
{
    if discovered.len() == 0 {
        Seq::empty()
    } else {
        let earlier = names_to_subscribe(pattern, discovered.drop_last(), subscribed);
        let name = discovered.last();
        if spec_topic_matches(pattern, name) && !subscribed.contains(name) && !earlier.contains(name) {
            earlier.push(name)
        } else {
            earlier
        }
    }
}

fn contains_name(names: &Vec<String>, name: &str) -> (r: bool)
    ensures
        r == strings_view(names@).contains(name@),
{
    let mut i: usize = 0;
    while i < names.len()
        invariant
            i <= names.len(),
            forall|j: int| 0 <= j < i ==> (#[trigger] names@[j])@ != name@,
        decreases names.len() - i,
    {
        if str_eq(names[i].as_str(), name) {
            assert(strings_view(names@)[i as int] == name@);
            return true;
        }
        i = i + 1;
    }
    proof {
        if strings_view(names@).contains(name@) {
            let j = choose|j: int| 0 <= j < strings_view(names@).len() && strings_view(names@)[j] == name@;
            assert(names@[j]@ == name@);
        }
    }
    false
}

/// One round of discovery: which of the discovered topic names get a new
/// reader. A name is taken when it matches the collector's topic pattern and
/// no reader exists for it yet (nor was it taken earlier in the round).
pub fn topics_to_subscribe(pattern: &str, discovered: &Vec<String>, subscribed: &Vec<String>) -> (r: Vec<String>)
    ensures
        strings_view(r@) == names_to_subscribe(pattern@, strings_view(discovered@), strings_view(subscribed@)),
{
    let ghost d = strings_view(discovered@);
    let mut out: Vec<String> = Vec::new();
    let mut i: usize = 0;
    while i < discovered.len()
        invariant
            i <= discovered.len(),
            d == strings_view(discovered@),
            strings_view(out@) == names_to_subscribe(pattern@, d.take(i as int), strings_view(subscribed@)),
        decreases discovered.len() - i,
    {
        let name = discovered[i].as_str();
        proof {
            assert(d.take(i + 1).drop_last() =~= d.take(i as int));
            assert(d.take(i + 1).last() == name@);
        }
        if topic_matches(pattern, name) && !contains_name(subscribed, name) && !contains_name(&out, name) {
            let ghost before = out@;
            out.push(discovered[i].clone());
            proof {
                assert(strings_view(out@) =~= strings_view(before).push(name@));
            }
        }
        i = i + 1;
    }
    proof {
        assert(d.take(discovered.len() as int) =~= d);
    }
    out
}

} // verus!
