//! Log formatters: plain text, JSON (ELK-ready) and syslog (RFC 5424).
use vstd::prelude::*;
use crate::logger::{
    LogEntry, LogLevel, LogTimestamp, SyslogFacility, facility_code, level_name,
    level_syslog_severity,
};
use crate::logger_config::OutputFormat;
use crate::text::{chars_of, decimal, push_char, push_decimal, push_str, string_from_chars};

verus! {

// ---------------------------------------------------------------------------
// Time stamps and JSON strings, rendered by chrono and serde_json.

/// `DateTime<Utc>::format(fmt).to_string()` for the instant `secs`, `nanos`.
pub uninterp spec fn utc_formatted(secs: i64, nanos: u32, format: Seq<char>) -> Seq<char>;

/// `DateTime<Utc>::to_rfc3339()` for the instant `secs`, `nanos`.
pub uninterp spec fn utc_rfc3339(secs: i64, nanos: u32) -> Seq<char>;

/// `serde_json::to_string` of a string: the quoted, escaped JSON literal.
pub uninterp spec fn json_quoted(s: Seq<char>) -> Seq<char>;

/// `chrono::DateTime::<Utc>::format` of the instant (empty if chrono has no
/// such instant). Rendering panics on a malformed format, so only the two
/// formats the formatters use are admitted.
#[verifier::external_body]
pub(crate) fn format_utc(ts: LogTimestamp, format: &str) -> (r: String)
    requires
        format@ == "%Y-%m-%d %H:%M:%S%.3f"@ || format@ == "%Y-%m-%dT%H:%M:%S%.6fZ"@,
    ensures
        r@ == utc_formatted(ts.secs, ts.nanos, format@),
{
    match chrono::DateTime::from_timestamp(ts.secs, ts.nanos) {
        Some(dt) => dt.format(format).to_string(),
        None => String::new(),
    }
}

/// `chrono::DateTime::<Utc>::to_rfc3339` of the instant (empty if chrono has
/// no such instant).
#[verifier::external_body]
pub(crate) fn rfc3339(ts: LogTimestamp) -> (r: String)
    ensures
        r@ == utc_rfc3339(ts.secs, ts.nanos),
{
    match chrono::DateTime::from_timestamp(ts.secs, ts.nanos) {
        Some(dt) => dt.to_rfc3339(),
        None => String::new(),
    }
}

/// `serde_json::to_string` of a string.
#[verifier::external_body]
pub(crate) fn json_string(s: &str) -> (r: String)
    ensures
        r@ == json_quoted(s@),
{
    serde_json::to_string(s).unwrap_or_default()
}

// ---------------------------------------------------------------------------
// Joining parts

/// The parts separated by `sep`.
pub open spec fn join(parts: Seq<Seq<char>>, sep: Seq<char>) -> Seq<char>
    decreases parts.len(),
{
    if parts.len() == 0 {
        Seq::empty()
    } else if parts.len() == 1 {
        parts[0]
    } else {
        join(parts.drop_last(), sep) + sep + parts.last()
    }
}

pub open spec fn strings_of(v: Seq<String>) -> Seq<Seq<char>> {
    v.map_values(|s: String| s@)
}

/// Joins the parts with `sep` (`[String]::join`).
pub fn join_strings(parts: &Vec<String>, sep: &str) -> (r: String)
    ensures
        r@ == join(strings_of(parts@), sep@),
{
    let mut out = String::new();
    let mut i: usize = 0;
    while i < parts.len()
        invariant
            i <= parts@.len(),
            out@ == join(strings_of(parts@.take(i as int)), sep@),
        decreases parts@.len() - i,
    {
        let ghost before = strings_of(parts@.take(i as int));
        if i > 0 {
            push_str(&mut out, sep);
        }
        push_str(&mut out, parts[i].as_str());
        i = i + 1;
        proof {
            let now = strings_of(parts@.take(i as int));
            assert(now.drop_last() =~= before);
            assert(now.last() == parts@[i - 1]@);
            if i == 1 {
                assert(before.len() == 0);
                assert(out@ =~= now[0]);
            } else {
                assert(out@ =~= join(before, sep@) + sep@ + now.last());
            }
        }
    }
    assert(parts@.take(parts@.len() as int) =~= parts@);
    out
}

// ---------------------------------------------------------------------------
// UTF-8 widths, for cutting a string after a number of bytes

pub open spec fn utf8_width(c: char) -> nat {
    if (c as u32) < 0x80 {
        1
    } else if (c as u32) < 0x800 {
        2
    } else if (c as u32) < 0x10000 {
        3
    } else {
        4
    }
}

/// The number of bytes of the UTF-8 encoding of `s`.
pub open spec fn byte_len(s: Seq<char>) -> nat
    decreases s.len(),
{
    if s.len() == 0 {
        0
    } else {
        byte_len(s.drop_last()) + utf8_width(s.last())
    }
}

pub open spec fn min_nat(a: nat, b: nat) -> nat {
    if a < b {
        a
    } else {
        b
    }
}

/// `&s[..n.min(s.len())]` cuts on a character boundary.
pub open spec fn cut_ok(s: Seq<char>, n: nat) -> bool {
    exists|k: int| 0 <= k <= s.len() && #[trigger] byte_len(s.take(k)) == min_nat(n, byte_len(s))
}

/// The characters of `&s[..n.min(s.len())]`.
pub open spec fn cut(s: Seq<char>, n: nat) -> Seq<char> {
    s.take(choose|k: int| 0 <= k <= s.len() && #[trigger] byte_len(s.take(k)) == min_nat(n, byte_len(s)))
}

proof fn lemma_byte_len_strict(s: Seq<char>, i: int, j: int)
    requires
        0 <= i < j <= s.len(),
    ensures
        byte_len(s.take(i)) < byte_len(s.take(j)),
    decreases j,
{
    assert(s.take(j).drop_last() =~= s.take(j - 1));
    if i < j - 1 {
        lemma_byte_len_strict(s, i, j - 1);
    }
}

fn width(c: char) -> (w: usize)
    ensures
        w == utf8_width(c),
{
    let v = c as u32;
    if v < 0x80 {
        1
    } else if v < 0x800 {
        2
    } else if v < 0x10000 {
        3
    } else {
        4
    }
}

/// `&s[..n.min(s.len())]`, for a cut on a character boundary.
fn byte_prefix(s: &str, n: usize) -> (r: String)
    requires
        cut_ok(s@, n as nat),
        n <= 64,
    ensures
        r@ == cut(s@, n as nat),
{
    let v = chars_of(s);
    let mut acc: usize = 0;
    let mut k: usize = 0;
    while k < v.len() && acc < n
        invariant
            k <= v@.len(),
            v@ == s@,
            acc == byte_len(v@.take(k as int)),
            n <= 64,
            acc <= n + 4,
            forall|j: int| 0 <= j < k ==> byte_len(#[trigger] v@.take(j)) < n,
        decreases v@.len() - k,
    {
        let ghost prev = k;
        assert(v@.take(k + 1).drop_last() =~= v@.take(k as int));
        acc = acc + width(v[k]);
        k = k + 1;
        assert(byte_len(v@.take(prev as int)) < n);
    }
    proof {
        assert(v@.take(v@.len() as int) =~= v@);
        let m = min_nat(n as nat, byte_len(s@));
        let kk = choose|kk: int| 0 <= kk <= s@.len() && #[trigger] byte_len(s@.take(kk)) == m;
        if kk < k {
            lemma_byte_len_strict(s@, kk, k as int);
            if k < s@.len() {
                lemma_byte_len_strict(s@, k as int, s@.len() as int);
            }
            assert(byte_len(s@.take(kk)) < n) by {
                if kk < k - 1 {
                    lemma_byte_len_strict(s@, kk, k - 1);
                }
            }
            assert(false);
        } else if kk > k {
            lemma_byte_len_strict(s@, k as int, kk);
            if kk < s@.len() {
                lemma_byte_len_strict(s@, kk, s@.len() as int);
            }
            assert(false);
        }
    }
    string_from_chars(&v.as_slice()[0..k])
}


/// Whether `&s[..n.min(s.len())]` cuts on a character boundary.
pub fn cut_ok_exec(s: &str, n: usize) -> (b: bool)
    requires
        n <= 64,
    ensures
        b == cut_ok(s@, n as nat),
{
    let v = chars_of(s);
    let mut acc: usize = 0;
    let mut k: usize = 0;
    while k < v.len() && acc < n
        invariant
            k <= v@.len(),
            v@ == s@,
            acc == byte_len(v@.take(k as int)),
            n <= 64,
            acc <= n + 4,
            forall|j: int| 0 <= j < k ==> byte_len(#[trigger] v@.take(j)) < n,
        decreases v@.len() - k,
    {
        let ghost prev = k;
        assert(v@.take(k + 1).drop_last() =~= v@.take(k as int));
        acc = acc + width(v[k]);
        k = k + 1;
        assert(byte_len(v@.take(prev as int)) < n);
    }
    proof {
        assert(v@.take(v@.len() as int) =~= v@);
        let m = min_nat(n as nat, byte_len(s@));
        if acc <= n {
            if k < s@.len() {
                lemma_byte_len_strict(s@, k as int, s@.len() as int);
            }
            assert(byte_len(s@.take(k as int)) == m);
        } else {
            if exists|kk: int| 0 <= kk <= s@.len() && #[trigger] byte_len(s@.take(kk)) == m {
                let kk = choose|kk: int| 0 <= kk <= s@.len() && #[trigger] byte_len(s@.take(kk)) == m;
                if k < s@.len() {
                    lemma_byte_len_strict(s@, k as int, s@.len() as int);
                }
                if kk < k {
                    assert(byte_len(s@.take(kk)) < n);
                } else if kk > k {
                    lemma_byte_len_strict(s@, k as int, kk);
                }
            }
        }
    }
    acc <= n
}

// ---------------------------------------------------------------------------
// Text

/// Text formatter for human-readable output.
#[derive(Debug, Clone, Copy, PartialEq, Eq, Structural)]
pub struct TextFormatter {
    pub show_timestamp: bool,
    pub show_participant: bool,
    pub show_topic: bool,
    pub use_colors: bool,
}

impl Default for TextFormatter {
    fn default() -> (f: TextFormatter)
        ensures
            f == (TextFormatter {
                show_timestamp: true,
                show_participant: true,
                show_topic: true,
                use_colors: true,
            }),
    {
        TextFormatter {
            show_timestamp: true,
            show_participant: true,
            show_topic: true,
            use_colors: true,
        }
    }
}

pub open spec fn level_color_code(l: LogLevel) -> Seq<char> {
    match l {
        LogLevel::Unset => "\x1b[37m"@,
        LogLevel::Debug => "\x1b[36m"@,
        LogLevel::Info => "\x1b[32m"@,
        LogLevel::Warn => "\x1b[33m"@,
        LogLevel::Error => "\x1b[31m"@,
        LogLevel::Fatal => "\x1b[35;1m"@,
    }
}

/// The name padded on the right to five characters (`{:5}`).
pub open spec fn pad5(s: Seq<char>) -> Seq<char> {
    if s.len() >= 5 {
        s
    } else {
        s + Seq::new((5 - s.len()) as nat, |i: int| ' ')
    }
}

pub open spec fn text_timestamp_format() -> Seq<char> {
    "%Y-%m-%d %H:%M:%S%.3f"@
}

/// The parts of a text line, in order; they are joined by single spaces.
pub open spec fn text_parts(f: TextFormatter, e: LogEntry) -> Seq<Seq<char>> {
    let color = if f.use_colors {
        level_color_code(e.level)
    } else {
        Seq::empty()
    };
    let reset = if f.use_colors {
        "\x1b[0m"@
    } else {
        Seq::empty()
    };
    let p0: Seq<Seq<char>> = if f.show_timestamp {
        seq![utc_formatted(e.timestamp.secs, e.timestamp.nanos, text_timestamp_format())]
    } else {
        Seq::empty()
    };
    let p1 = p0.push(color + seq!['['] + pad5(level_name(e.level)) + seq![']'] + reset);
    let p2 = if f.show_participant {
        p1.push(seq!['['] + cut(e.participant_id@, 8) + seq![']'])
    } else {
        p1
    };
    let p3 = if f.show_topic && e.topic is Some {
        p2.push(seq!['['] + e.topic->Some_0@ + seq![']'])
    } else {
        p2
    };
    let p4 = if e.node_name is Some {
        p3.push(seq!['['] + e.node_name->Some_0@ + seq![']'])
    } else {
        p3
    };
    p4.push(e.message@)
}

proof fn lemma_join_push(p: Seq<Seq<char>>, x: Seq<char>, sep: Seq<char>)
    requires
        p.len() >= 1,
    ensures
        join(p.push(x), sep) == join(p, sep) + sep + x,
{
    assert(p.push(x).drop_last() =~= p);
}

/// `s` when `b` holds, else nothing.
pub open spec fn when(b: bool, s: Seq<char>) -> Seq<char> {
    if b {
        s
    } else {
        Seq::empty()
    }
}

proof fn lemma_join_when(p: Seq<Seq<char>>, b: bool, x: Seq<char>, sep: Seq<char>)
    requires
        p.len() >= 1,
    ensures
        join(if b { p.push(x) } else { p }, sep) == join(p, sep) + when(b, sep + x),
{
    if b {
        lemma_join_push(p, x, sep);
    } else {
        assert(join(p, sep) + when(b, sep + x) =~= join(p, sep));
    }
}

proof fn lemma_text_line_pieces(f: TextFormatter, e: LogEntry)
    ensures
        join(text_parts(f, e), seq![' ']) == when(
            f.show_timestamp,
            utc_formatted(e.timestamp.secs, e.timestamp.nanos, text_timestamp_format()) + seq![' '],
        ) + (when(f.use_colors, level_color_code(e.level)) + seq!['['] + pad5(level_name(e.level)) + seq![']']
            + when(f.use_colors, "\x1b[0m"@)) + when(
            f.show_participant,
            seq![' '] + (seq!['['] + cut(e.participant_id@, 8) + seq![']']),
        ) + when(f.show_topic && e.topic is Some, seq![' '] + (seq!['['] + e.topic->Some_0@ + seq![']'])) + when(
            e.node_name is Some,
            seq![' '] + (seq!['['] + e.node_name->Some_0@ + seq![']']),
        ) + seq![' '] + e.message@,
{
    let sp = seq![' '];
    let color = when(f.use_colors, level_color_code(e.level));
    let reset = when(f.use_colors, "\x1b[0m"@);
    let ts = utc_formatted(e.timestamp.secs, e.timestamp.nanos, text_timestamp_format());
    let lvl = color + seq!['['] + pad5(level_name(e.level)) + seq![']'] + reset;
    let p0: Seq<Seq<char>> = if f.show_timestamp { seq![ts] } else { Seq::empty() };
    let p1 = p0.push(lvl);
    let part = seq!['['] + cut(e.participant_id@, 8) + seq![']'];
    let p2 = if f.show_participant { p1.push(part) } else { p1 };
    let bt = f.show_topic && e.topic is Some;
    let tpart = seq!['['] + e.topic->Some_0@ + seq![']'];
    let p3 = if bt { p2.push(tpart) } else { p2 };
    let bn = e.node_name is Some;
    let npart = seq!['['] + e.node_name->Some_0@ + seq![']'];
    let p4 = if bn { p3.push(npart) } else { p3 };
    assert(text_parts(f, e) == p4.push(e.message@));
    if f.show_timestamp {
        assert(join(p0, sp) == ts);
        lemma_join_push(p0, lvl, sp);
    } else {
        assert(p1 =~= seq![lvl]);
    }
    assert(join(p1, sp) =~= when(f.show_timestamp, ts + sp) + lvl);
    lemma_join_when(p1, f.show_participant, part, sp);
    lemma_join_when(p2, bt, tpart, sp);
    lemma_join_when(p3, bn, npart, sp);
    lemma_join_push(p4, e.message@, sp);
}

proof fn lemma_ends_with_bracketed(pre: Seq<char>, b: bool, x: Seq<char>, msg: Seq<char>)
    requires
        b,
    ensures
        ({
            let line = pre + when(b, seq![' '] + (seq!['['] + x + seq![']'])) + seq![' '] + msg;
            let tail = seq!['['] + x + seq![']', ' '] + msg;
            line.len() >= tail.len() && line.subrange(line.len() - tail.len(), line.len() as int) == tail
        }),
{
    let line = pre + when(b, seq![' '] + (seq!['['] + x + seq![']'])) + seq![' '] + msg;
    let tail = seq!['['] + x + seq![']', ' '] + msg;
    assert(line =~= (pre + seq![' ']) + tail);
    assert(line.subrange(line.len() - tail.len(), line.len() as int) =~= tail);
}

/// A text line reads, left to right: the time stamp and a space (when
/// shown); the level in brackets, padded to five characters (coloured when
/// colours are on); then, each after a space, the participant's first eight
/// bytes in brackets (when shown), the topic in brackets (when shown and
/// the entry has one), the node name in brackets (when the entry has one);
/// and last, after a space, the message. So an entry's node name always
/// stands in brackets just before the message.
pub proof fn law_text_line_layout(f: TextFormatter, e: LogEntry)
    ensures
        join(text_parts(f, e), seq![' ']) == when(
            f.show_timestamp,
            utc_formatted(e.timestamp.secs, e.timestamp.nanos, text_timestamp_format()) + seq![' '],
        ) + (when(f.use_colors, level_color_code(e.level)) + seq!['['] + pad5(level_name(e.level)) + seq![']']
            + when(f.use_colors, "\x1b[0m"@)) + when(
            f.show_participant,
            seq![' '] + (seq!['['] + cut(e.participant_id@, 8) + seq![']']),
        ) + when(f.show_topic && e.topic is Some, seq![' '] + (seq!['['] + e.topic->Some_0@ + seq![']'])) + when(
            e.node_name is Some,
            seq![' '] + (seq!['['] + e.node_name->Some_0@ + seq![']']),
        ) + seq![' '] + e.message@,
        e.node_name matches Some(n) ==> {
            let line = join(text_parts(f, e), seq![' ']);
            let tail = seq!['['] + n@ + seq![']', ' '] + e.message@;
            line.len() >= tail.len() && line.subrange(line.len() - tail.len(), line.len() as int) == tail
        },
{
    lemma_text_line_pieces(f, e);
    if e.node_name is Some {
        let pre = when(
            f.show_timestamp,
            utc_formatted(e.timestamp.secs, e.timestamp.nanos, text_timestamp_format()) + seq![' '],
        ) + (when(f.use_colors, level_color_code(e.level)) + seq!['['] + pad5(level_name(e.level)) + seq![']']
            + when(f.use_colors, "\x1b[0m"@)) + when(
            f.show_participant,
            seq![' '] + (seq!['['] + cut(e.participant_id@, 8) + seq![']']),
        ) + when(f.show_topic && e.topic is Some, seq![' '] + (seq!['['] + e.topic->Some_0@ + seq![']']));
        lemma_ends_with_bracketed(pre, e.node_name is Some, e.node_name->Some_0@, e.message@);
    }
}

fn bracketed(s: &str) -> (r: String)
    ensures
        r@ == seq!['['] + s@ + seq![']'],
{
    let mut r = String::new();
    push_char(&mut r, '[');
    push_str(&mut r, s);
    push_char(&mut r, ']');
    assert(r@ =~= seq!['['] + s@ + seq![']']);
    r
}

impl TextFormatter {
    /// A formatter without colours.
    pub fn no_colors() -> (f: TextFormatter)
        ensures
            f == (TextFormatter {
                show_timestamp: true,
                show_participant: true,
                show_topic: true,
                use_colors: false,
            }),
    {
        TextFormatter {
            show_timestamp: true,
            show_participant: true,
            show_topic: true,
            use_colors: false,
        }
    }

    /// The ANSI colour of a level (empty without colours).
    pub fn level_color(&self, level: LogLevel) -> (r: &'static str)
        ensures
            r@ == (if self.use_colors {
                level_color_code(level)
            } else {
                Seq::empty()
            }),
    {
        proof {
            reveal_strlit("");
        }
        if !self.use_colors {
            return "";
        }
        match level {
            LogLevel::Unset => "\x1b[37m",
            LogLevel::Debug => "\x1b[36m",
            LogLevel::Info => "\x1b[32m",
            LogLevel::Warn => "\x1b[33m",
            LogLevel::Error => "\x1b[31m",
            LogLevel::Fatal => "\x1b[35;1m",
        }
    }

    /// The ANSI reset code (empty without colours).
    pub fn reset(&self) -> (r: &'static str)
        ensures
            r@ == (if self.use_colors {
                "\x1b[0m"@
            } else {
                Seq::empty()
            }),
    {
        proof {
            reveal_strlit("");
        }
        if self.use_colors {
            "\x1b[0m"
        } else {
            ""
        }
    }

    /// Formats an entry: time stamp, level, participant (its first 8
    /// bytes), topic, node and message, separated by spaces.
    pub fn format(&self, entry: &LogEntry) -> (r: String)
        requires
            cut_ok(entry.participant_id@, 8),
        ensures
            r@ == join(text_parts(*self, *entry), seq![' ']),
    {
        let ghost e = *entry;
        let ghost f = *self;
        let mut parts: Vec<String> = Vec::new();
        if self.show_timestamp {
            parts.push(format_utc(entry.timestamp, "%Y-%m-%d %H:%M:%S%.3f"));
        }
        proof {
            reveal_strlit("%Y-%m-%d %H:%M:%S%.3f");
            reveal_strlit("UNSET");
            reveal_strlit("DEBUG");
            reveal_strlit("INFO");
            reveal_strlit("WARN");
            reveal_strlit("ERROR");
            reveal_strlit("FATAL");
            let p0: Seq<Seq<char>> = if f.show_timestamp {
                seq![utc_formatted(e.timestamp.secs, e.timestamp.nanos, text_timestamp_format())]
            } else {
                Seq::empty()
            };
            assert(strings_of(parts@) =~= p0);
        }
        let mut level = String::new();
        let color = self.level_color(entry.level);
        push_str(&mut level, color);
        push_char(&mut level, '[');
        let name = entry.level.as_str();
        push_str(&mut level, name);
        let name_len = chars_of(name).len();
        let mut pad = name_len;
        while pad < 5
            invariant
                name_len <= pad <= 5,
                name_len == level_name(entry.level).len(),
                level@ == color@ + seq!['['] + level_name(entry.level) + Seq::new(
                    (pad - name_len) as nat,
                    |i: int| ' ',
                ),
            decreases 5 - pad,
        {
            push_char(&mut level, ' ');
            pad = pad + 1;
            assert(level@ =~= color@ + seq!['['] + level_name(entry.level) + Seq::new(
                (pad - name_len) as nat,
                |i: int| ' ',
            ));
        }
        push_char(&mut level, ']');
        let reset = self.reset();
        push_str(&mut level, reset);
        proof {
            assert(level@ =~= color@ + seq!['['] + pad5(level_name(entry.level)) + seq![']']
                + reset@);
        }
        let ghost before = strings_of(parts@);
        parts.push(level);
        assert(strings_of(parts@) =~= before.push(level@));
        if self.show_participant {
            let prefix = byte_prefix(entry.participant_id.as_str(), 8);
            let b = bracketed(prefix.as_str());
            let ghost before = strings_of(parts@);
            parts.push(b);
            assert(strings_of(parts@) =~= before.push(b@));
        }
        if self.show_topic {
            if let Some(topic) = &entry.topic {
                let b = bracketed(topic.as_str());
                let ghost before = strings_of(parts@);
                parts.push(b);
                assert(strings_of(parts@) =~= before.push(b@));
            }
        }
        if let Some(node) = &entry.node_name {
            let b = bracketed(node.as_str());
            let ghost before = strings_of(parts@);
            parts.push(b);
            assert(strings_of(parts@) =~= before.push(b@));
        }
        let ghost before = strings_of(parts@);
        parts.push(entry.message.clone());
        assert(strings_of(parts@) =~= before.push(entry.message@));
        proof {
            assert(strings_of(parts@) =~= text_parts(*self, *entry));
        }
        let sep = " ";
        proof {
            reveal_strlit(" ");
            assert(sep@ =~= seq![' ']);
        }
        join_strings(&parts, sep)
    }
}

// ---------------------------------------------------------------------------
// JSON

/// JSON formatter for structured logging.
#[derive(Debug, Clone, Copy, PartialEq, Eq, Structural)]
pub struct JsonFormatter {
    pub pretty: bool,
}

impl Default for JsonFormatter {
    fn default() -> (f: JsonFormatter)
        ensures
            !f.pretty,
    {
        JsonFormatter { pretty: false }
    }
}

/// The (key, rendered value) members of the JSON object of an entry, in the
/// order of the ELK-style record; absent optional fields are left out.
pub open spec fn json_members(e: LogEntry) -> Seq<(Seq<char>, Seq<char>)> {
    let m0 = seq![
        ("@timestamp"@, json_quoted(utc_rfc3339(e.timestamp.secs, e.timestamp.nanos))),
        ("level"@, json_quoted(level_name(e.level))),
        ("message"@, json_quoted(e.message@)),
    ];
    let m1 = if e.topic is Some {
        m0.push(("topic"@, json_quoted(e.topic->Some_0@)))
    } else {
        m0
    };
    let m2 = if e.node_name is Some {
        m1.push(("node"@, json_quoted(e.node_name->Some_0@)))
    } else {
        m1
    };
    let m3 = m2.push(("participant_id"@, json_quoted(e.participant_id@)));
    let m4 = if e.file is Some {
        m3.push(("file"@, json_quoted(e.file->Some_0@)))
    } else {
        m3
    };
    let m5 = if e.line is Some {
        m4.push(("line"@, decimal(e.line->Some_0 as nat)))
    } else {
        m4
    };
    let m6 = if e.function is Some {
        m5.push(("function"@, json_quoted(e.function->Some_0@)))
    } else {
        m5
    };
    m6.push(("source"@, json_quoted("hdds-logger"@)))
}

/// One member: `"key":value` (compact) or `  "key": value` (pretty).
pub open spec fn json_member(m: (Seq<char>, Seq<char>), pretty: bool) -> Seq<char> {
    if pretty {
        "  "@ + json_quoted(m.0) + ": "@ + m.1
    } else {
        json_quoted(m.0) + ":"@ + m.1
    }
}

/// The JSON text of an entry, compact or pretty-printed.
pub open spec fn json_text(e: LogEntry, pretty: bool) -> Seq<char> {
    let members = json_members(e).map_values(|m: (Seq<char>, Seq<char>)| json_member(m, pretty));
    if pretty {
        "{\n"@ + join(members, ",\n"@) + "\n}"@
    } else {
        "{"@ + join(members, ","@) + "}"@
    }
}

proof fn lemma_push_contains(s: Seq<(Seq<char>, Seq<char>)>, x: (Seq<char>, Seq<char>), y: (Seq<char>, Seq<char>))
    ensures
        s.contains(y) ==> s.push(x).contains(y),
        s.push(x).contains(x),
{
    assert(s.push(x)[s.len() as int] == x);
    if s.contains(y) {
        let i = choose|i: int| 0 <= i < s.len() && s[i] == y;
        assert(s.push(x)[i] == y);
    }
}

/// The JSON record of an entry starts with its time stamp, level and
/// message, ends with the source `hdds-logger`, always carries the
/// participant, and carries the topic, node, file, line and function of the
/// entry wherever the entry has them.
pub proof fn law_json_record_fields(e: LogEntry)
    ensures
        json_members(e).len() >= 5,
        json_members(e)[0] == ("@timestamp"@, json_quoted(utc_rfc3339(e.timestamp.secs, e.timestamp.nanos))),
        json_members(e)[1] == ("level"@, json_quoted(level_name(e.level))),
        json_members(e)[2] == ("message"@, json_quoted(e.message@)),
        json_members(e).last() == ("source"@, json_quoted("hdds-logger"@)),
        json_members(e).contains(("participant_id"@, json_quoted(e.participant_id@))),
        e.topic matches Some(t) ==> json_members(e).contains(("topic"@, json_quoted(t@))),
        e.node_name matches Some(n) ==> json_members(e).contains(("node"@, json_quoted(n@))),
        e.file matches Some(x) ==> json_members(e).contains(("file"@, json_quoted(x@))),
        e.line matches Some(l) ==> json_members(e).contains(("line"@, decimal(l as nat))),
        e.function matches Some(x) ==> json_members(e).contains(("function"@, json_quoted(x@))),
{
    let m0 = seq![
        ("@timestamp"@, json_quoted(utc_rfc3339(e.timestamp.secs, e.timestamp.nanos))),
        ("level"@, json_quoted(level_name(e.level))),
        ("message"@, json_quoted(e.message@)),
    ];
    let topic = ("topic"@, json_quoted(e.topic->Some_0@));
    let node = ("node"@, json_quoted(e.node_name->Some_0@));
    let part = ("participant_id"@, json_quoted(e.participant_id@));
    let file = ("file"@, json_quoted(e.file->Some_0@));
    let line = ("line"@, decimal(e.line->Some_0 as nat));
    let func = ("function"@, json_quoted(e.function->Some_0@));
    let src = ("source"@, json_quoted("hdds-logger"@));
    let m1 = if e.topic is Some { m0.push(topic) } else { m0 };
    let m2 = if e.node_name is Some { m1.push(node) } else { m1 };
    let m3 = m2.push(part);
    let m4 = if e.file is Some { m3.push(file) } else { m3 };
    let m5 = if e.line is Some { m4.push(line) } else { m4 };
    let m6 = if e.function is Some { m5.push(func) } else { m5 };
    assert(json_members(e) == m6.push(src));
    lemma_push_contains(m0, topic, topic);
    lemma_push_contains(m1, node, topic);
    lemma_push_contains(m1, node, node);
    lemma_push_contains(m2, part, topic);
    lemma_push_contains(m2, part, node);
    lemma_push_contains(m2, part, part);
    lemma_push_contains(m3, file, topic);
    lemma_push_contains(m3, file, node);
    lemma_push_contains(m3, file, part);
    lemma_push_contains(m3, file, file);
    lemma_push_contains(m4, line, topic);
    lemma_push_contains(m4, line, node);
    lemma_push_contains(m4, line, part);
    lemma_push_contains(m4, line, file);
    lemma_push_contains(m4, line, line);
    lemma_push_contains(m5, func, topic);
    lemma_push_contains(m5, func, node);
    lemma_push_contains(m5, func, part);
    lemma_push_contains(m5, func, file);
    lemma_push_contains(m5, func, line);
    lemma_push_contains(m5, func, func);
    lemma_push_contains(m6, src, topic);
    lemma_push_contains(m6, src, node);
    lemma_push_contains(m6, src, part);
    lemma_push_contains(m6, src, file);
    lemma_push_contains(m6, src, line);
    lemma_push_contains(m6, src, func);
    assert(m6.push(src)[0] == m0[0]);
    assert(m6.push(src)[1] == m0[1]);
    assert(m6.push(src)[2] == m0[2]);
}

fn push_member(members: &mut Vec<String>, key: &str, value: String, pretty: bool)
    ensures
        strings_of(final(members)@) == strings_of(old(members)@).push(
            json_member((key@, value@), pretty),
        ),
{
    let mut m = String::new();
    if pretty {
        push_str(&mut m, "  ");
    }
    push_str(&mut m, json_string(key).as_str());
    if pretty {
        push_str(&mut m, ": ");
    } else {
        push_str(&mut m, ":");
    }
    push_str(&mut m, value.as_str());
    proof {
        reveal_strlit("  ");
        reveal_strlit(": ");
        reveal_strlit(":");
        assert(m@ =~= json_member((key@, value@), pretty));
    }
    let ghost before = members@;
    members.push(m);
    assert(strings_of(members@) =~= strings_of(before).push(json_member((key@, value@), pretty)));
}

fn quoted(s: &str) -> (r: String)
    ensures
        r@ == json_quoted(s@),
{
    json_string(s)
}

impl JsonFormatter {
    /// A compact (single-line) JSON formatter.
    pub fn compact() -> (f: JsonFormatter)
        ensures
            !f.pretty,
    {
        JsonFormatter { pretty: false }
    }

    /// Formats an entry as a JSON object.
    pub fn format(&self, entry: &LogEntry) -> (r: String)
        ensures
            r@ == json_text(*entry, self.pretty),
    {
        let pretty = self.pretty;
        let mut members: Vec<String> = Vec::new();
        push_member(&mut members, "@timestamp", quoted(rfc3339(entry.timestamp).as_str()), pretty);
        push_member(&mut members, "level", quoted(entry.level.as_str()), pretty);
        push_member(&mut members, "message", quoted(entry.message.as_str()), pretty);
        if let Some(topic) = &entry.topic {
            push_member(&mut members, "topic", quoted(topic.as_str()), pretty);
        }
        if let Some(node) = &entry.node_name {
            push_member(&mut members, "node", quoted(node.as_str()), pretty);
        }
        push_member(&mut members, "participant_id", quoted(entry.participant_id.as_str()), pretty);
        if let Some(file) = &entry.file {
            push_member(&mut members, "file", quoted(file.as_str()), pretty);
        }
        if let Some(line) = entry.line {
            let mut v = String::new();
            push_decimal(&mut v, line as u64);
            push_member(&mut members, "line", v, pretty);
        }
        if let Some(function) = &entry.function {
            push_member(&mut members, "function", quoted(function.as_str()), pretty);
        }
        push_member(&mut members, "source", quoted("hdds-logger"), pretty);
        proof {
            reveal_strlit("@timestamp");
            reveal_strlit("level");
            reveal_strlit("message");
            reveal_strlit("topic");
            reveal_strlit("node");
            reveal_strlit("participant_id");
            reveal_strlit("file");
            reveal_strlit("line");
            reveal_strlit("function");
            reveal_strlit("source");
            reveal_strlit("hdds-logger");
            let want = json_members(*entry).map_values(
                |m: (Seq<char>, Seq<char>)| json_member(m, pretty),
            );
            assert(strings_of(members@) =~= want);
        }
        let mut out = String::new();
        if pretty {
            push_str(&mut out, "{\n");
            push_str(&mut out, join_strings(&members, ",\n").as_str());
            push_str(&mut out, "\n}");
        } else {
            push_str(&mut out, "{");
            push_str(&mut out, join_strings(&members, ",").as_str());
            push_str(&mut out, "}");
        }
        out
    }
}

// ---------------------------------------------------------------------------
// Syslog

/// Syslog RFC 5424 formatter.
pub struct SyslogFormatter {
    pub facility: SyslogFacility,
    pub app_name: String,
    pub hostname: String,
}

pub open spec fn syslog_pri(f: SyslogFacility, l: LogLevel) -> int {
    facility_code(f) * 8 + level_syslog_severity(l)
}

pub open spec fn syslog_timestamp_format() -> Seq<char> {
    "%Y-%m-%dT%H:%M:%S%.6fZ"@
}

/// The structured-data element of an entry.
pub open spec fn syslog_sd(e: LogEntry) -> Seq<char> {
    match e.node_name {
        Some(node) => "[hdds node=\""@ + node@ + "\" participant=\""@ + e.participant_id@ + "\"]"@,
        None => "[hdds participant=\""@ + e.participant_id@ + "\"]"@,
    }
}

/// `<PRI>1 TIMESTAMP HOSTNAME APP-NAME PROCID MSGID SD MSG`.
pub open spec fn syslog_line(f: SyslogFormatter, e: LogEntry, procid: u32) -> Seq<char> {
    let msgid = match e.topic {
        Some(t) => t@,
        None => "-"@,
    };
    "<"@ + decimal(syslog_pri(f.facility, e.level) as nat) + ">1 "@ + utc_formatted(
        e.timestamp.secs,
        e.timestamp.nanos,
        syslog_timestamp_format(),
    ) + " "@ + f.hostname@ + " "@ + f.app_name@ + " "@ + decimal(procid as nat) + " "@ + msgid
        + " "@ + syslog_sd(e) + " "@ + e.message@
}

/// A syslog line starts with `<PRI>1 ` where PRI is the facility code times
/// 8 plus the level's severity, ends with a space and the message, and,
/// for an entry with a node name `n`, holds `node="n"` in its structured
/// data (otherwise the participant alone).
pub proof fn law_syslog_line_frame(f: SyslogFormatter, e: LogEntry, procid: u32)
    ensures
        ({
            let line = syslog_line(f, e, procid);
            let head = "<"@ + decimal((facility_code(f.facility) * 8 + level_syslog_severity(e.level)) as nat) + ">1 "@;
            let tail = " "@ + e.message@;
            &&& line.len() >= head.len() + tail.len()
            &&& line.subrange(0, head.len() as int) == head
            &&& line.subrange(line.len() - tail.len(), line.len() as int) == tail
        }),
        e.node_name matches Some(n) ==> syslog_sd(e) == "[hdds node=\""@ + n@ + "\" participant=\""@
            + e.participant_id@ + "\"]"@,
        e.node_name is None ==> syslog_sd(e) == "[hdds participant=\""@ + e.participant_id@ + "\"]"@,
{
    let line = syslog_line(f, e, procid);
    let head = "<"@ + decimal((facility_code(f.facility) * 8 + level_syslog_severity(e.level)) as nat) + ">1 "@;
    let tail = " "@ + e.message@;
    let msgid = match e.topic {
        Some(t) => t@,
        None => "-"@,
    };
    let mid = utc_formatted(e.timestamp.secs, e.timestamp.nanos, syslog_timestamp_format()) + " "@ + f.hostname@
        + " "@ + f.app_name@ + " "@ + decimal(procid as nat) + " "@ + msgid + " "@ + syslog_sd(e);
    assert(line =~= head + mid + tail);
    assert(line.subrange(0, head.len() as int) =~= head);
    assert(line.subrange(line.len() - tail.len(), line.len() as int) =~= tail);
}

impl SyslogFormatter {
    /// A formatter for the facility, with the application name "hdds-logger".
    pub fn with_facility(facility: SyslogFacility, hostname: String) -> (f: SyslogFormatter)
        ensures
            f.facility == facility,
            f.app_name@ == "hdds-logger"@,
            f.hostname@ == hostname@,
    {
        SyslogFormatter { facility, app_name: String::from_str("hdds-logger"), hostname }
    }

    /// The PRI value: facility code times 8 plus severity.
    pub fn pri(&self, level: LogLevel) -> (r: u8)
        ensures
            r == syslog_pri(self.facility, level),
    {
        self.facility.code() * 8 + level.syslog_severity()
    }

    /// Formats an entry as an RFC 5424 line; `procid` is the process ID.
    pub fn format(&self, entry: &LogEntry, procid: u32) -> (r: String)
        ensures
            r@ == syslog_line(*self, *entry, procid),
    {
        let mut out = String::new();
        push_str(&mut out, "<");
        push_decimal(&mut out, self.pri(entry.level) as u64);
        push_str(&mut out, ">1 ");
        push_str(&mut out, format_utc(entry.timestamp, "%Y-%m-%dT%H:%M:%S%.6fZ").as_str());
        push_str(&mut out, " ");
        push_str(&mut out, self.hostname.as_str());
        push_str(&mut out, " ");
        push_str(&mut out, self.app_name.as_str());
        push_str(&mut out, " ");
        push_decimal(&mut out, procid as u64);
        push_str(&mut out, " ");
        match &entry.topic {
            Some(t) => push_str(&mut out, t.as_str()),
            None => push_str(&mut out, "-"),
        }
        push_str(&mut out, " ");
        match &entry.node_name {
            Some(node) => {
                push_str(&mut out, "[hdds node=\"");
                push_str(&mut out, node.as_str());
                push_str(&mut out, "\" participant=\"");
                push_str(&mut out, entry.participant_id.as_str());
                push_str(&mut out, "\"]");
            },
            None => {
                push_str(&mut out, "[hdds participant=\"");
                push_str(&mut out, entry.participant_id.as_str());
                push_str(&mut out, "\"]");
            },
        }
        push_str(&mut out, " ");
        push_str(&mut out, entry.message.as_str());
        proof {
            assert(out@ =~= syslog_line(*self, *entry, procid));
        }
        out
    }
}

// ---------------------------------------------------------------------------
// Choosing a formatter

/// A formatter for one of the output formats.
pub enum Formatter {
    Text(TextFormatter),
    Json(JsonFormatter),
    Syslog(SyslogFormatter),
}

/// The formatter of an output format: text with the default settings,
/// compact JSON for both JSON forms, or syslog on facility Local0 with the
/// given host name.
pub fn create_formatter(format: OutputFormat, hostname: String) -> (f: Formatter)
    ensures
        format == OutputFormat::Text ==> f == Formatter::Text(
            TextFormatter {
                show_timestamp: true,
                show_participant: true,
                show_topic: true,
                use_colors: true,
            },
        ),
        (format == OutputFormat::Json || format == OutputFormat::JsonLines) ==> f
            == Formatter::Json(JsonFormatter { pretty: false }),
        format == OutputFormat::Syslog ==> (f matches Formatter::Syslog(s) && s.facility
            == SyslogFacility::Local0 && s.app_name@ == "hdds-logger"@ && s.hostname@
            == hostname@),
{
    match format {
        OutputFormat::Text => Formatter::Text(TextFormatter::default()),
        OutputFormat::Json | OutputFormat::JsonLines => Formatter::Json(JsonFormatter::compact()),
        OutputFormat::Syslog => Formatter::Syslog(
            SyslogFormatter::with_facility(SyslogFacility::Local0, hostname),
        ),
    }
}

/// Whether an entry can be rendered by the formatter (the text formatter
/// cuts the participant ID after 8 bytes, which must be a character boundary).
pub open spec fn formatter_accepts(f: Formatter, e: LogEntry) -> bool {
    f is Text ==> cut_ok(e.participant_id@, 8)
}

/// The line a formatter renders for an entry.
pub open spec fn formatted(f: Formatter, e: LogEntry, procid: u32) -> Seq<char> {
    match f {
        Formatter::Text(t) => join(text_parts(t, e), seq![' ']),
        Formatter::Json(j) => json_text(e, j.pretty),
        Formatter::Syslog(s) => syslog_line(s, e, procid),
    }
}

impl Formatter {
    /// Whether the formatter can render the entry.
    pub fn accepts(&self, entry: &LogEntry) -> (b: bool)
        ensures
            b == formatter_accepts(*self, *entry),
    {
        match self {
            Formatter::Text(_) => cut_ok_exec(entry.participant_id.as_str(), 8),
            _ => true,
        }
    }

    /// Renders an entry; `procid` is used by the syslog form only.
    pub fn format(&self, entry: &LogEntry, procid: u32) -> (r: String)
        requires
            formatter_accepts(*self, *entry),
        ensures
            r@ == formatted(*self, *entry, procid),
    {
        match self {
            Formatter::Text(t) => t.format(entry),
            Formatter::Json(j) => j.format(entry),
            Formatter::Syslog(s) => s.format(entry, procid),
        }
    }
}

} // verus!
