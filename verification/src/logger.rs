//! The distributed logger's data: levels, syslog facilities, log entries,
//! filters and configuration.
use vstd::prelude::*;
use crate::glob::{glob, glob_match};
use crate::text::{
    chars_of, str_eq, ascii_only, ascii_upper, ascii_lower, ascii_upper_char, ascii_lower_char,
    lemma_upper_of_lower,
};

verus! {

/// The Unicode upper-case mapping of one non-ASCII character, one or more
/// characters (as `char::to_uppercase` yields them).
pub uninterp spec fn unicode_char_upper(c: char) -> Seq<char>;

/// The upper-case mapping of a character: `a`..`z` map to `A`..`Z`, every
/// other ASCII character to itself, a non-ASCII one by `f`.
pub open spec fn char_upper(c: char, f: spec_fn(char) -> Seq<char>) -> Seq<char> {
    if (c as int) < 128 {
        seq![ascii_upper_char(c)]
    } else {
        f(c)
    }
}

/// Text in upper case: each character's upper-case mapping, in order, with
/// `f` mapping the non-ASCII characters.
pub open spec fn upper_by(s: Seq<char>, f: spec_fn(char) -> Seq<char>) -> Seq<char>
    decreases s.len(),
{
    if s.len() == 0 {
        Seq::empty()
    } else {
        upper_by(s.drop_last(), f) + char_upper(s.last(), f)
    }
}

/// Text in upper case by Unicode rules.
pub open spec fn unicode_uppercase(s: Seq<char>) -> Seq<char> {
    upper_by(s, |c: char| unicode_char_upper(c))
}

/// `str::to_uppercase`: each character is replaced by its upper-case
/// mapping, in order; on ASCII characters that maps `a`..`z` to `A`..`Z`
/// and keeps the rest.
#[verifier::external_body]
pub(crate) fn to_uppercase(s: &str) -> (r: String)
    ensures
        r@ == upper_by(s@, |c: char| unicode_char_upper(c)),
{
    s.to_uppercase()
}

/// On ASCII text the upper-case mapping is the ASCII one.
pub proof fn lemma_uppercase_ascii(s: Seq<char>, f: spec_fn(char) -> Seq<char>)
    requires
        ascii_only(s),
    ensures
        upper_by(s, f) == ascii_upper(s),
    decreases s.len(),
{
    if s.len() > 0 {
        lemma_uppercase_ascii(s.drop_last(), f);
        assert(ascii_upper(s) =~= ascii_upper(s.drop_last()) + seq![ascii_upper_char(s.last())]);
    } else {
        assert(ascii_upper(s) =~= Seq::<char>::empty());
    }
}

/// Upper-casing ignores the case of ASCII letters, whatever else the text
/// holds.
pub proof fn lemma_uppercase_of_ascii_lower(s: Seq<char>, f: spec_fn(char) -> Seq<char>)
    ensures
        upper_by(ascii_lower(s), f) == upper_by(s, f),
    decreases s.len(),
{
    if s.len() > 0 {
        let l = ascii_lower(s);
        assert(l.drop_last() =~= ascii_lower(s.drop_last()));
        lemma_uppercase_of_ascii_lower(s.drop_last(), f);
        let c = s.last();
        assert(l.last() == ascii_lower_char(c));
        if 65 <= (c as int) <= 90 {
            assert(((c as int) + 32) as char as int == (c as int) + 32);
            assert(ascii_upper_char(ascii_lower_char(c)) == c) by {
                assert((((c as int) + 32 - 32) as char) == c);
            }
        }
        assert(char_upper(l.last(), f) == char_upper(c, f));
    }
}

/// Log severity levels, ordered as in ROS 2 `rcl_interfaces/Log`.
#[derive(Debug, Clone, Copy, PartialEq, Eq, PartialOrd, Ord, Hash, Structural)]
pub enum LogLevel {
    Unset,
    Debug,
    Info,
    Warn,
    Error,
    Fatal,
}

/// The wire value of a level (0, 10, 20, 30, 40, 50).
pub open spec fn level_code(l: LogLevel) -> u8 {
    match l {
        LogLevel::Unset => 0,
        LogLevel::Debug => 10,
        LogLevel::Info => 20,
        LogLevel::Warn => 30,
        LogLevel::Error => 40,
        LogLevel::Fatal => 50,
    }
}

pub open spec fn level_name(l: LogLevel) -> Seq<char> {
    match l {
        LogLevel::Unset => "UNSET"@,
        LogLevel::Debug => "DEBUG"@,
        LogLevel::Info => "INFO"@,
        LogLevel::Warn => "WARN"@,
        LogLevel::Error => "ERROR"@,
        LogLevel::Fatal => "FATAL"@,
    }
}

/// The level named by an upper-case word, with the accepted synonyms.
pub open spec fn level_from_upper(u: Seq<char>) -> Option<LogLevel> {
    if u == "UNSET"@ {
        Some(LogLevel::Unset)
    } else if u == "DEBUG"@ {
        Some(LogLevel::Debug)
    } else if u == "INFO"@ {
        Some(LogLevel::Info)
    } else if u == "WARN"@ || u == "WARNING"@ {
        Some(LogLevel::Warn)
    } else if u == "ERROR"@ || u == "ERR"@ {
        Some(LogLevel::Error)
    } else if u == "FATAL"@ || u == "CRITICAL"@ {
        Some(LogLevel::Fatal)
    } else {
        None
    }
}

pub open spec fn level_syslog_severity(l: LogLevel) -> u8 {
    match l {
        LogLevel::Unset => 7,
        LogLevel::Debug => 7,
        LogLevel::Info => 6,
        LogLevel::Warn => 4,
        LogLevel::Error => 3,
        LogLevel::Fatal => 2,
    }
}

/// A level's wire value reads back as the level.
pub proof fn law_level_code_roundtrip(l: LogLevel)
    ensures
        LogLevel::from_code_spec(level_code(l)) == l,
{
}

/// Each level's name parses back to the level, and so do the synonyms
/// "warning", "err" and "critical", in any case.
pub proof fn law_level_names_parse(l: LogLevel)
    ensures
        ascii_only(level_name(l)),
        level_from_upper(ascii_upper(level_name(l))) == Some(l),
        level_from_upper(ascii_upper("warning"@)) == Some(LogLevel::Warn),
        level_from_upper(ascii_upper("err"@)) == Some(LogLevel::Error),
        level_from_upper(ascii_upper("critical"@)) == Some(LogLevel::Fatal),
{
    reveal_strlit("UNSET");
    reveal_strlit("DEBUG");
    reveal_strlit("INFO");
    reveal_strlit("WARN");
    reveal_strlit("WARNING");
    reveal_strlit("ERROR");
    reveal_strlit("ERR");
    reveal_strlit("FATAL");
    reveal_strlit("CRITICAL");
    reveal_strlit("warning");
    reveal_strlit("err");
    reveal_strlit("critical");
    let n = level_name(l);
    assert(ascii_upper(n) =~= n);
    assert("UNSET"@[0] == 'U' && "DEBUG"@[0] == 'D' && "INFO"@[0] == 'I' && "WARN"@[0] == 'W');
    assert("ERROR"@[0] == 'E' && "FATAL"@[0] == 'F' && "WARNING"@[0] == 'W' && "ERR"@[0] == 'E');
    assert("CRITICAL"@[0] == 'C');
    match l {
        LogLevel::Unset => {},
        LogLevel::Debug => {
            assert(n != "UNSET"@);
        },
        LogLevel::Info => {},
        LogLevel::Warn => {
            assert(n != "INFO"@);
        },
        LogLevel::Error => {
            assert(n != "UNSET"@ && n != "DEBUG"@);
        },
        LogLevel::Fatal => {
            assert(n != "UNSET"@ && n != "DEBUG"@ && n != "ERROR"@);
        },
    }
    assert(ascii_upper("warning"@) =~= "WARNING"@);
    assert(ascii_upper("err"@) =~= "ERR"@);
    assert(ascii_upper("critical"@) =~= "CRITICAL"@);
}

/// Parsing a level ignores the case of ASCII letters, whatever else the
/// text holds.
pub proof fn law_level_parse_ignores_case(s: Seq<char>)
    ensures
        level_from_upper(unicode_uppercase(ascii_lower(s))) == level_from_upper(unicode_uppercase(s)),
        ascii_only(s) ==> level_from_upper(ascii_upper(ascii_lower(s))) == level_from_upper(ascii_upper(s)),
{
    lemma_uppercase_of_ascii_lower(s, |c: char| unicode_char_upper(c));
    lemma_upper_of_lower(s);
}

impl LogLevel {
    /// The wire value of the level.
    pub fn code(&self) -> (r: u8)
        ensures
            r == level_code(*self),
    {
        match self {
            LogLevel::Unset => 0,
            LogLevel::Debug => 10,
            LogLevel::Info => 20,
            LogLevel::Warn => 30,
            LogLevel::Error => 40,
            LogLevel::Fatal => 50,
        }
    }

    /// The level's name in capitals.
    pub fn as_str(&self) -> (r: &'static str)
        ensures
            r@ == level_name(*self),
    {
        match self {
            LogLevel::Unset => "UNSET",
            LogLevel::Debug => "DEBUG",
            LogLevel::Info => "INFO",
            LogLevel::Warn => "WARN",
            LogLevel::Error => "ERROR",
            LogLevel::Fatal => "FATAL",
        }
    }

    /// Parses a level name in any case; "WARNING", "ERR" and "CRITICAL" are
    /// accepted as synonyms.
    pub fn parse(s: &str) -> (r: Option<LogLevel>)
        ensures
            r == level_from_upper(unicode_uppercase(s@)),
            ascii_only(s@) ==> r == level_from_upper(ascii_upper(s@)),
    {
        let upper = to_uppercase(s);
        proof {
            if ascii_only(s@) {
                lemma_uppercase_ascii(s@, |c: char| unicode_char_upper(c));
            }
        }
        let u = upper.as_str();
        if str_eq(u, "UNSET") {
            Some(LogLevel::Unset)
        } else if str_eq(u, "DEBUG") {
            Some(LogLevel::Debug)
        } else if str_eq(u, "INFO") {
            Some(LogLevel::Info)
        } else if str_eq(u, "WARN") || str_eq(u, "WARNING") {
            Some(LogLevel::Warn)
        } else if str_eq(u, "ERROR") || str_eq(u, "ERR") {
            Some(LogLevel::Error)
        } else if str_eq(u, "FATAL") || str_eq(u, "CRITICAL") {
            Some(LogLevel::Fatal)
        } else {
            None
        }
    }

    /// The syslog severity the level maps to.
    pub fn syslog_severity(&self) -> (r: u8)
        ensures
            r == level_syslog_severity(*self),
    {
        match self {
            LogLevel::Unset => 7,
            LogLevel::Debug => 7,
            LogLevel::Info => 6,
            LogLevel::Warn => 4,
            LogLevel::Error => 3,
            LogLevel::Fatal => 2,
        }
    }

    /// The level of a ROS 2 log wire value; unknown values are `Unset`.
    pub open spec fn from_code_spec(code: u8) -> LogLevel {
        if code == 10 {
            LogLevel::Debug
        } else if code == 20 {
            LogLevel::Info
        } else if code == 30 {
            LogLevel::Warn
        } else if code == 40 {
            LogLevel::Error
        } else if code == 50 {
            LogLevel::Fatal
        } else {
            LogLevel::Unset
        }
    }

    /// The level of a ROS 2 log wire value; unknown values are `Unset`.
    pub fn from_code(code: u8) -> (r: LogLevel)
        ensures
            r == LogLevel::from_code_spec(code),
            code == 10 ==> r == LogLevel::Debug,
            code == 20 ==> r == LogLevel::Info,
            code == 30 ==> r == LogLevel::Warn,
            code == 40 ==> r == LogLevel::Error,
            code == 50 ==> r == LogLevel::Fatal,
            code != 10 && code != 20 && code != 30 && code != 40 && code != 50 ==> r
                == LogLevel::Unset,
    {
        match code {
            10 => LogLevel::Debug,
            20 => LogLevel::Info,
            30 => LogLevel::Warn,
            40 => LogLevel::Error,
            50 => LogLevel::Fatal,
            _ => LogLevel::Unset,
        }
    }
}

impl Default for LogLevel {
    fn default() -> (r: LogLevel)
        ensures
            r == LogLevel::Info,
    {
        LogLevel::Info
    }
}

/// Syslog facility (RFC 5424).
#[derive(Debug, Clone, Copy, PartialEq, Eq, Structural)]
pub enum SyslogFacility {
    Kern,
    User,
    Mail,
    Daemon,
    Auth,
    Syslog,
    Lpr,
    News,
    Uucp,
    Cron,
    Local0,
    Local1,
    Local2,
    Local3,
    Local4,
    Local5,
    Local6,
    Local7,
}

pub open spec fn facility_code(f: SyslogFacility) -> u8 {
    match f {
        SyslogFacility::Kern => 0,
        SyslogFacility::User => 1,
        SyslogFacility::Mail => 2,
        SyslogFacility::Daemon => 3,
        SyslogFacility::Auth => 4,
        SyslogFacility::Syslog => 5,
        SyslogFacility::Lpr => 6,
        SyslogFacility::News => 7,
        SyslogFacility::Uucp => 8,
        SyslogFacility::Cron => 9,
        SyslogFacility::Local0 => 16,
        SyslogFacility::Local1 => 17,
        SyslogFacility::Local2 => 18,
        SyslogFacility::Local3 => 19,
        SyslogFacility::Local4 => 20,
        SyslogFacility::Local5 => 21,
        SyslogFacility::Local6 => 22,
        SyslogFacility::Local7 => 23,
    }
}

impl SyslogFacility {
    /// The numeric facility code.
    pub fn code(&self) -> (r: u8)
        ensures
            r == facility_code(*self),
            r <= 23,
    {
        match self {
            SyslogFacility::Kern => 0,
            SyslogFacility::User => 1,
            SyslogFacility::Mail => 2,
            SyslogFacility::Daemon => 3,
            SyslogFacility::Auth => 4,
            SyslogFacility::Syslog => 5,
            SyslogFacility::Lpr => 6,
            SyslogFacility::News => 7,
            SyslogFacility::Uucp => 8,
            SyslogFacility::Cron => 9,
            SyslogFacility::Local0 => 16,
            SyslogFacility::Local1 => 17,
            SyslogFacility::Local2 => 18,
            SyslogFacility::Local3 => 19,
            SyslogFacility::Local4 => 20,
            SyslogFacility::Local5 => 21,
            SyslogFacility::Local6 => 22,
            SyslogFacility::Local7 => 23,
        }
    }
}

impl Default for SyslogFacility {
    fn default() -> (r: SyslogFacility)
        ensures
            r == SyslogFacility::Local0,
    {
        SyslogFacility::Local0
    }
}

/// Source of a log entry.
#[derive(Debug, Clone, Copy, PartialEq, Eq, Structural)]
pub enum LogSource {
    DdsTopic,
    Telemetry,
    Local,
}

impl Default for LogSource {
    fn default() -> (r: LogSource)
        ensures
            r == LogSource::DdsTopic,
    {
        LogSource::DdsTopic
    }
}

/// A UTC instant: seconds since the Unix epoch and nanoseconds.
#[derive(Debug, Clone, Copy, PartialEq, Eq, Structural)]
pub struct LogTimestamp {
    pub secs: i64,
    pub nanos: u32,
}

/// A collected log entry.
pub struct LogEntry {
    pub timestamp: LogTimestamp,
    pub level: LogLevel,
    pub message: String,
    pub participant_id: String,
    pub topic: Option<String>,
    pub node_name: Option<String>,
    pub file: Option<String>,
    pub line: Option<u32>,
    pub function: Option<String>,
}

pub open spec fn opt_view(o: Option<String>) -> Option<Seq<char>> {
    match o {
        Some(s) => Some(s@),
        None => None,
    }
}

impl LogEntry {
    /// An entry at `timestamp` with the given level and message and no other fields.
    pub fn at(timestamp: LogTimestamp, level: LogLevel, message: String) -> (e: LogEntry)
        ensures
            e.timestamp == timestamp,
            e.level == level,
            e.message@ == message@,
            e.participant_id@ == Seq::<char>::empty(),
            e.topic is None,
            e.node_name is None,
            e.file is None,
            e.line is None,
            e.function is None,
    {
        LogEntry {
            timestamp,
            level,
            message,
            participant_id: String::new(),
            topic: None,
            node_name: None,
            file: None,
            line: None,
            function: None,
        }
    }

    /// Sets the participant ID.
    pub fn with_participant(self, id: String) -> (e: LogEntry)
        ensures
            e.participant_id@ == id@,
            e.timestamp == self.timestamp,
            e.level == self.level,
            e.message == self.message,
            e.topic == self.topic,
            e.node_name == self.node_name,
            e.file == self.file,
            e.line == self.line,
            e.function == self.function,
    {
        let mut e = self;
        e.participant_id = id;
        e
    }

    /// Sets the topic name.
    pub fn with_topic(self, topic: String) -> (e: LogEntry)
        ensures
            opt_view(e.topic) == Some(topic@),
            e.timestamp == self.timestamp,
            e.level == self.level,
            e.message == self.message,
            e.participant_id == self.participant_id,
            e.node_name == self.node_name,
            e.file == self.file,
            e.line == self.line,
            e.function == self.function,
    {
        let mut e = self;
        e.topic = Some(topic);
        e
    }

    /// Sets the node name.
    pub fn with_node(self, node: String) -> (e: LogEntry)
        ensures
            opt_view(e.node_name) == Some(node@),
            e.timestamp == self.timestamp,
            e.level == self.level,
            e.message == self.message,
            e.participant_id == self.participant_id,
            e.topic == self.topic,
            e.file == self.file,
            e.line == self.line,
            e.function == self.function,
    {
        let mut e = self;
        e.node_name = Some(node);
        e
    }

    /// Sets the source location.
    pub fn with_location(self, file: String, line: u32, function: String) -> (e: LogEntry)
        ensures
            opt_view(e.file) == Some(file@),
            e.line == Some(line),
            opt_view(e.function) == Some(function@),
            e.timestamp == self.timestamp,
            e.level == self.level,
            e.message == self.message,
            e.participant_id == self.participant_id,
            e.topic == self.topic,
            e.node_name == self.node_name,
    {
        let mut e = self;
        e.file = Some(file);
        e.line = Some(line);
        e.function = Some(function);
        e
    }
}

// ---------------------------------------------------------------------------
// Filtering

/// Log filter configuration.
pub struct LogFilter {
    pub min_level: LogLevel,
    pub participant_pattern: Option<String>,
    pub topic_pattern: Option<String>,
    pub node_pattern: Option<String>,
    pub message_pattern: Option<String>,
}

/// `text` holds `pat` as a contiguous run.
pub open spec fn contains_seq(text: Seq<char>, pat: Seq<char>) -> bool {
    exists|i: int| 0 <= i <= text.len() - pat.len() && #[trigger] text.subrange(i, i + pat.len()) == pat
}

/// Whether an entry passes the filter: its level is at least the minimum;
/// the participant matches the participant pattern; the topic and the node,
/// where the entry has them, match their patterns; and the message contains
/// the message pattern.
pub open spec fn spec_filter_matches(f: LogFilter, e: LogEntry) -> bool {
    &&& level_code(e.level) >= level_code(f.min_level)
    &&& (f.participant_pattern matches Some(p) ==> glob(p@, e.participant_id@))
    &&& (f.topic_pattern matches Some(p) ==> (e.topic matches Some(t) ==> glob(p@, t@)))
    &&& (f.node_pattern matches Some(p) ==> (e.node_name matches Some(n) ==> glob(p@, n@)))
    &&& (f.message_pattern matches Some(p) ==> contains_seq(e.message@, p@))
}

/// Each criterion of a filter refuses on its own: an entry below the
/// minimum level, or whose participant, topic or node does not match the
/// filter's pattern for it, or whose message lacks the message pattern,
/// does not pass, whatever the other criteria say. An entry without a topic
/// (or node) is not refused for it.
pub proof fn law_filter_refusals(f: LogFilter, e: LogEntry)
    ensures
        level_code(e.level) < level_code(f.min_level) ==> !spec_filter_matches(f, e),
        (f.participant_pattern matches Some(p) && !glob(p@, e.participant_id@)) ==> !spec_filter_matches(f, e),
        (f.topic_pattern matches Some(p) && e.topic matches Some(t) && !glob(p@, t@)) ==> !spec_filter_matches(f, e),
        (f.node_pattern matches Some(p) && e.node_name matches Some(n) && !glob(p@, n@)) ==> !spec_filter_matches(f, e),
        (f.message_pattern matches Some(p) && !contains_seq(e.message@, p@)) ==> !spec_filter_matches(f, e),
{
}

/// An entry that meets every criterion passes: its level is at least the
/// minimum, and each pattern the filter has matches the field it is for
/// (a topic or node pattern is met by an entry without that field).
pub proof fn law_filter_accepts(f: LogFilter, e: LogEntry)
    requires
        level_code(e.level) >= level_code(f.min_level),
        f.participant_pattern matches Some(p) ==> glob(p@, e.participant_id@),
        f.topic_pattern matches Some(p) ==> (e.topic is None || glob(p@, e.topic->Some_0@)),
        f.node_pattern matches Some(p) ==> (e.node_name is None || glob(p@, e.node_name->Some_0@)),
        f.message_pattern matches Some(p) ==> contains_seq(e.message@, p@),
    ensures
        spec_filter_matches(f, e),
{
}

/// Adding a topic pattern to a filter never lets more entries through.
pub proof fn law_topic_pattern_narrows(f: LogFilter, p: String, e: LogEntry)
    requires
        f.topic_pattern is None,
    ensures
        spec_filter_matches((LogFilter { topic_pattern: Some(p), ..f }), e) ==> spec_filter_matches(f, e),
        e.topic matches Some(t) && !glob(p@, t@) ==> !spec_filter_matches((LogFilter { topic_pattern: Some(p), ..f }), e),
{
}

/// Whether `text` contains `pat` (`str::contains`).
pub fn str_contains(text: &str, pat: &str) -> (r: bool)
    ensures
        r == contains_seq(text@, pat@),
{
    let t = chars_of(text);
    let p = chars_of(pat);
    if p.len() > t.len() {
        return false;
    }
    let tl = t.len();
    let last = tl - p.len();
    let mut i: usize = 0;
    while i <= last
        invariant
            t@ == text@,
            p@ == pat@,
            tl == t@.len(),
            last == t@.len() - p@.len(),
            i <= last + 1,
            forall|k: int| 0 <= k < i ==> #[trigger] t@.subrange(k, k + p@.len()) != p@,
        ensures
            forall|k: int| 0 <= k <= last ==> #[trigger] t@.subrange(k, k + p@.len()) != p@,
        decreases last + 1 - i,
    {
        let mut j: usize = 0;
        let mut same = true;
        while j < p.len()
            invariant
                t@ == text@,
                p@ == pat@,
                i <= last,
                tl == t@.len(),
                last == t@.len() - p@.len(),
                j <= p@.len(),
                same == (forall|m: int| 0 <= m < j ==> t@[i + m] == p@[m]),
            decreases p@.len() - j,
        {
            if t[i + j] != p[j] {
                same = false;
            }
            j = j + 1;
        }
        if same {
            assert(t@.subrange(i as int, i + p@.len()) =~= p@);
            return true;
        }
        assert(t@.subrange(i as int, i + p@.len()) != p@) by {
            let m = choose|m: int| 0 <= m < p@.len() && t@[i + m] != p@[m];
            assert(t@.subrange(i as int, i + p@.len())[m] == t@[i + m]);
        }
        if i == last {
            break;
        }
        i = i + 1;
    }
    proof {
        if contains_seq(text@, pat@) {
            let k = choose|k: int|
                0 <= k <= text@.len() - pat@.len() && #[trigger] text@.subrange(
                    k,
                    k + pat@.len(),
                ) == pat@;
            assert(t@.subrange(k, k + p@.len()) == p@);
        }
    }
    false
}

impl LogFilter {
    /// A filter that accepts every entry.
    pub fn all() -> (f: LogFilter)
        ensures
            f.min_level == LogLevel::Unset,
            f.participant_pattern is None,
            f.topic_pattern is None,
            f.node_pattern is None,
            f.message_pattern is None,
    {
        LogFilter {
            min_level: LogLevel::Unset,
            participant_pattern: None,
            topic_pattern: None,
            node_pattern: None,
            message_pattern: None,
        }
    }

    /// A filter on the minimum level only.
    pub fn min_level(level: LogLevel) -> (f: LogFilter)
        ensures
            f.min_level == level,
            f.participant_pattern is None,
            f.topic_pattern is None,
            f.node_pattern is None,
            f.message_pattern is None,
    {
        LogFilter {
            min_level: level,
            participant_pattern: None,
            topic_pattern: None,
            node_pattern: None,
            message_pattern: None,
        }
    }

    /// Whether an entry passes this filter.
    pub fn matches(&self, entry: &LogEntry) -> (r: bool)
        ensures
            r == spec_filter_matches(*self, *entry),
    {
        if entry.level.code() < self.min_level.code() {
            return false;
        }
        if let Some(pattern) = &self.participant_pattern {
            if !glob_match(pattern.as_str(), entry.participant_id.as_str()) {
                return false;
            }
        }
        if let Some(pattern) = &self.topic_pattern {
            if let Some(topic) = &entry.topic {
                if !glob_match(pattern.as_str(), topic.as_str()) {
                    return false;
                }
            }
        }
        if let Some(pattern) = &self.node_pattern {
            if let Some(node) = &entry.node_name {
                if !glob_match(pattern.as_str(), node.as_str()) {
                    return false;
                }
            }
        }
        if let Some(pattern) = &self.message_pattern {
            if !str_contains(entry.message.as_str(), pattern.as_str()) {
                return false;
            }
        }
        true
    }
}

impl Default for LogFilter {
    fn default() -> (f: LogFilter)
        ensures
            f.min_level == LogLevel::Info,
            f.participant_pattern is None,
            f.topic_pattern is None,
            f.node_pattern is None,
            f.message_pattern is None,
    {
        LogFilter::min_level(LogLevel::Info)
    }
}

} // verus!
