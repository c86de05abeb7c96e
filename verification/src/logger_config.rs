//! Logger configuration: output format and destination, file rotation, the
//! configuration builder and the command-line options.
use vstd::prelude::*;
use crate::logger::{
    LogFilter, LogLevel, SyslogFacility, opt_view, unicode_uppercase, to_uppercase, unicode_char_upper,
    lemma_uppercase_ascii,
};
use vstd::string::StrSliceExecFns;
use crate::text::{
    chars_of, push_char, push_decimal, push_str, decimal, string_from_chars, ascii_only, ascii_trim,
    ascii_upper, ascii_lower, lemma_upper_of_lower, lemma_trim_lower,
};

verus! {

/// Output format for log entries.
#[derive(Debug, Clone, Copy, PartialEq, Eq, Structural)]
pub enum OutputFormat {
    Text,
    Json,
    Syslog,
    JsonLines,
}

impl Default for OutputFormat {
    fn default() -> (r: OutputFormat)
        ensures
            r == OutputFormat::Text,
    {
        OutputFormat::Text
    }
}

/// File rotation configuration.
#[derive(Debug, Clone, Copy, PartialEq, Eq, Structural)]
pub struct FileRotation {
    /// Size in bytes at which the file is rotated.
    pub max_size: u64,
    /// Number of rotated files kept.
    pub max_files: u32,
    /// Whether rotated files are compressed.
    pub compress: bool,
}

pub const DEFAULT_ROTATION_SIZE: u64 = 10485760;

impl Default for FileRotation {
    fn default() -> (r: FileRotation)
        ensures
            r == (FileRotation { max_size: 10485760u64, max_files: 5, compress: false }),
    {
        FileRotation { max_size: DEFAULT_ROTATION_SIZE, max_files: 5, compress: false }
    }
}

impl FileRotation {
    /// Rotation at `mb` megabytes (MiB).
    pub fn with_max_size_mb(mb: u64) -> (r: FileRotation)
        requires
            mb * 1024 * 1024 <= u64::MAX,
        ensures
            r == (FileRotation { max_size: (mb * 1024 * 1024) as u64, max_files: 5, compress: false }),
    {
        FileRotation { max_size: mb * 1024 * 1024, max_files: 5, compress: false }
    }

    /// Sets the number of rotated files kept.
    pub fn max_files(self, count: u32) -> (r: FileRotation)
        ensures
            r == (FileRotation { max_files: count, ..self }),
    {
        FileRotation { max_files: count, ..self }
    }

    /// Turns compression of rotated files on.
    pub fn compressed(self) -> (r: FileRotation)
        ensures
            r == (FileRotation { compress: true, ..self }),
    {
        FileRotation { compress: true, ..self }
    }
}

/// Where log lines go.
pub enum OutputConfig {
    Stdout,
    Stderr,
    File { path: String, rotation: Option<FileRotation> },
    Syslog { facility: SyslogFacility },
}

impl Default for OutputConfig {
    fn default() -> (r: OutputConfig)
        ensures
            r is Stdout,
    {
        OutputConfig::Stdout
    }
}

/// Logger configuration.
pub struct LogConfig {
    pub format: OutputFormat,
    pub output: OutputConfig,
    pub filter: LogFilter,
    pub domain_id: u32,
    pub topic_pattern: String,
}

/// The topic the logger follows unless told otherwise.
pub open spec fn default_topic_pattern() -> Seq<char> {
    "rt/rosout"@
}

impl Default for LogConfig {
    fn default() -> (c: LogConfig)
        ensures
            c.format == OutputFormat::Text,
            c.output is Stdout,
            c.filter.min_level == LogLevel::Info,
            c.filter.participant_pattern is None,
            c.filter.topic_pattern is None,
            c.filter.node_pattern is None,
            c.filter.message_pattern is None,
            c.domain_id == 0,
            c.topic_pattern@ == default_topic_pattern(),
    {
        LogConfig {
            format: OutputFormat::Text,
            output: OutputConfig::Stdout,
            filter: LogFilter::default(),
            domain_id: 0,
            topic_pattern: String::from_str("rt/rosout"),
        }
    }
}

impl LogConfig {
    /// A builder with nothing set.
    pub fn builder() -> (b: LogConfigBuilder)
        ensures
            b.format is None,
            b.output is None,
            b.filter is None,
            b.domain_id is None,
            b.topic_pattern is None,
    {
        LogConfigBuilder::default()
    }
}

/// Builder for `LogConfig`; what is not set takes the default.
pub struct LogConfigBuilder {
    pub format: Option<OutputFormat>,
    pub output: Option<OutputConfig>,
    pub filter: Option<LogFilter>,
    pub domain_id: Option<u32>,
    pub topic_pattern: Option<String>,
}

impl Default for LogConfigBuilder {
    fn default() -> (b: LogConfigBuilder)
        ensures
            b.format is None,
            b.output is None,
            b.filter is None,
            b.domain_id is None,
            b.topic_pattern is None,
    {
        LogConfigBuilder {
            format: None,
            output: None,
            filter: None,
            domain_id: None,
            topic_pattern: None,
        }
    }
}

/// The builder's filter, or the default one.
pub open spec fn filter_or_default(f: Option<LogFilter>) -> LogFilter {
    match f {
        Some(f) => f,
        None => LogFilter {
            min_level: LogLevel::Info,
            participant_pattern: None,
            topic_pattern: None,
            node_pattern: None,
            message_pattern: None,
        },
    }
}

fn take_filter(f: Option<LogFilter>) -> (r: LogFilter)
    ensures
        r == filter_or_default(f),
{
    match f {
        Some(f) => f,
        None => LogFilter::default(),
    }
}

impl LogConfigBuilder {
    /// Sets the output format.
    pub fn format(self, format: OutputFormat) -> (b: LogConfigBuilder)
        ensures
            b == (LogConfigBuilder { format: Some(format), ..self }),
    {
        LogConfigBuilder { format: Some(format), ..self }
    }

    /// Sends output to a file, without rotation.
    pub fn output_file(self, path: String) -> (b: LogConfigBuilder)
        ensures
            b.output matches Some(OutputConfig::File { path: p, rotation: None }) && p@ == path@,
            b.format == self.format,
            b.filter == self.filter,
            b.domain_id == self.domain_id,
            b.topic_pattern == self.topic_pattern,
    {
        LogConfigBuilder { output: Some(OutputConfig::File { path, rotation: None }), ..self }
    }

    /// Sends output to a file, rotated as given.
    pub fn output_file_rotated(self, path: String, rotation: FileRotation) -> (b: LogConfigBuilder)
        ensures
            b.output matches Some(OutputConfig::File { path: p, rotation: Some(r) }) && p@ == path@
                && r == rotation,
            b.format == self.format,
            b.filter == self.filter,
            b.domain_id == self.domain_id,
            b.topic_pattern == self.topic_pattern,
    {
        LogConfigBuilder {
            output: Some(OutputConfig::File { path, rotation: Some(rotation) }),
            ..self
        }
    }

    /// Sends output to standard output.
    pub fn output_stdout(self) -> (b: LogConfigBuilder)
        ensures
            b.output matches Some(OutputConfig::Stdout),
            b.format == self.format,
            b.filter == self.filter,
            b.domain_id == self.domain_id,
            b.topic_pattern == self.topic_pattern,
    {
        LogConfigBuilder { output: Some(OutputConfig::Stdout), ..self }
    }

    /// Sends output to syslog.
    pub fn output_syslog(self, facility: SyslogFacility) -> (b: LogConfigBuilder)
        ensures
            b.output matches Some(OutputConfig::Syslog { facility: f }) && f == facility,
            b.format == self.format,
            b.filter == self.filter,
            b.domain_id == self.domain_id,
            b.topic_pattern == self.topic_pattern,
    {
        LogConfigBuilder { output: Some(OutputConfig::Syslog { facility }), ..self }
    }

    /// Sets the minimum level, keeping the rest of the filter.
    pub fn level(self, level: LogLevel) -> (b: LogConfigBuilder)
        ensures
            b.filter == Some(LogFilter { min_level: level, ..filter_or_default(self.filter) }),
            b.format == self.format,
            b.output == self.output,
            b.domain_id == self.domain_id,
            b.topic_pattern == self.topic_pattern,
    {
        let mut filter = take_filter(self.filter);
        filter.min_level = level;
        LogConfigBuilder { filter: Some(filter), ..self }
    }

    /// Sets the participant pattern, keeping the rest of the filter.
    pub fn participant_filter(self, pattern: String) -> (b: LogConfigBuilder)
        ensures
            b.filter == Some(
                LogFilter { participant_pattern: Some(pattern), ..filter_or_default(self.filter) },
            ),
            b.format == self.format,
            b.output == self.output,
            b.domain_id == self.domain_id,
            b.topic_pattern == self.topic_pattern,
    {
        let mut filter = take_filter(self.filter);
        filter.participant_pattern = Some(pattern);
        LogConfigBuilder { filter: Some(filter), ..self }
    }

    /// Sets the topic pattern of the filter, keeping the rest of it.
    pub fn topic_filter(self, pattern: String) -> (b: LogConfigBuilder)
        ensures
            b.filter == Some(
                LogFilter { topic_pattern: Some(pattern), ..filter_or_default(self.filter) },
            ),
            b.format == self.format,
            b.output == self.output,
            b.domain_id == self.domain_id,
            b.topic_pattern == self.topic_pattern,
    {
        let mut filter = take_filter(self.filter);
        filter.topic_pattern = Some(pattern);
        LogConfigBuilder { filter: Some(filter), ..self }
    }

    /// Sets the DDS domain.
    pub fn domain_id(self, id: u32) -> (b: LogConfigBuilder)
        ensures
            b == (LogConfigBuilder { domain_id: Some(id), ..self }),
    {
        LogConfigBuilder { domain_id: Some(id), ..self }
    }

    /// Sets the log topic pattern to follow.
    pub fn topic_pattern(self, pattern: String) -> (b: LogConfigBuilder)
        ensures
            b == (LogConfigBuilder { topic_pattern: Some(pattern), ..self }),
    {
        LogConfigBuilder { topic_pattern: Some(pattern), ..self }
    }

    /// The configuration: what was set, and the defaults for the rest.
    pub fn build(self) -> (c: LogConfig)
        ensures
            c.format == (match self.format {
                Some(f) => f,
                None => OutputFormat::Text,
            }),
            self.output matches Some(o) ==> c.output == o,
            self.output is None ==> c.output is Stdout,
            c.filter == filter_or_default(self.filter),
            c.domain_id == (match self.domain_id {
                Some(d) => d,
                None => 0,
            }),
            c.topic_pattern@ == (match self.topic_pattern {
                Some(t) => t@,
                None => default_topic_pattern(),
            }),
    {
        LogConfig {
            format: match self.format {
                Some(f) => f,
                None => OutputFormat::Text,
            },
            output: match self.output {
                Some(o) => o,
                None => OutputConfig::Stdout,
            },
            filter: take_filter(self.filter),
            domain_id: match self.domain_id {
                Some(d) => d,
                None => 0,
            },
            topic_pattern: match self.topic_pattern {
                Some(t) => t,
                None => String::from_str("rt/rosout"),
            },
        }
    }
}

// ---------------------------------------------------------------------------
// Sizes such as "10M"

/// `str::trim`: the text without leading and trailing Unicode white space.
pub uninterp spec fn unicode_trim(s: Seq<char>) -> Seq<char>;

/// `str::trim`; on ASCII text it removes the leading and trailing tabs,
/// line feeds, vertical tabs, form feeds, carriage returns and spaces.
#[verifier::external_body]
pub(crate) fn trim(s: &str) -> (r: String)
    ensures
        r@ == unicode_trim(s@),
        ascii_only(s@) ==> r@ == ascii_trim(s@),
{
    s.trim().to_string()
}

pub open spec fn is_digit(c: char) -> bool {
    '0' <= c && c <= '9'
}

pub open spec fn digit_value(c: char) -> nat {
    (c as nat - '0' as nat) as nat
}

/// The value of a run of decimal digits.
pub open spec fn digits_value(s: Seq<char>) -> nat
    decreases s.len(),
{
    if s.len() == 0 {
        0
    } else {
        digits_value(s.drop_last()) * 10 + digit_value(s.last())
    }
}

pub open spec fn all_digits(s: Seq<char>) -> bool {
    forall|i: int| 0 <= i < s.len() ==> is_digit(#[trigger] s[i])
}

/// `u64::from_str`: an optional `+`, then at least one decimal digit, with
/// a value that fits.
pub open spec fn spec_parse_u64(s: Seq<char>) -> Option<u64> {
    let d = if s.len() > 0 && s[0] == '+' {
        s.drop_first()
    } else {
        s
    };
    if d.len() > 0 && all_digits(d) && digits_value(d) <= u64::MAX {
        Some(digits_value(d) as u64)
    } else {
        None
    }
}

/// Parses a decimal `u64` as `u64::from_str` does.
pub fn parse_u64(s: &[char]) -> (r: Option<u64>)
    ensures
        r == spec_parse_u64(s@),
{
    let mut start: usize = 0;
    if s.len() > 0 && s[0] == '+' {
        start = 1;
    }
    let ghost d = s@.skip(start as int);
    assert(d =~= (if s@.len() > 0 && s@[0] == '+' { s@.drop_first() } else { s@ }));
    if start == s.len() {
        return None;
    }
    let mut value: u64 = 0;
    let mut i: usize = start;
    while i < s.len()
        invariant
            start <= i <= s@.len(),
            start < s@.len(),
            d == s@.skip(start as int),
            d == (if s@.len() > 0 && s@[0] == '+' {
                s@.drop_first()
            } else {
                s@
            }),
            all_digits(s@.subrange(start as int, i as int)),
            value == digits_value(s@.subrange(start as int, i as int)),
        decreases s@.len() - i,
    {
        let c = s[i];
        if !('0' <= c && c <= '9') {
            assert(d[i - start] == c);
            assert(!is_digit(d[i - start]));
            assert(!all_digits(d));
            return None;
        }
        let dv = (c as u32 - '0' as u32) as u64;
        assert(s@.subrange(start as int, i + 1).drop_last() =~= s@.subrange(start as int, i as int));
        if value > (u64::MAX - dv) / 10 {
            proof {
                assert(value * 10 + dv > u64::MAX) by (nonlinear_arith)
                    requires
                        value > (u64::MAX - dv) / 10,
                        dv <= 9,
                ;
                assert(s@.skip(start as int).subrange(0, i + 1 - start) =~= s@.subrange(
                    start as int,
                    i + 1,
                ));
                if all_digits(d) {
                    lemma_digits_grow(d, (i + 1 - start) as int);
                }
            }
            return None;
        }
        value = value * 10 + dv;
        i = i + 1;
    }
    assert(s@.subrange(start as int, s@.len() as int) =~= d);
    Some(value)
}

/// A longer run of digits has at least the value of its prefix.
proof fn lemma_digits_grow(d: Seq<char>, k: int)
    requires
        0 <= k <= d.len(),
        all_digits(d),
    ensures
        digits_value(d.subrange(0, k)) <= digits_value(d),
    decreases d.len(),
{
    if k < d.len() {
        assert(d.drop_last().subrange(0, k) =~= d.subrange(0, k));
        assert forall|i: int| 0 <= i < d.drop_last().len() implies is_digit(
            #[trigger] d.drop_last()[i],
        ) by {
            assert(d.drop_last()[i] == d[i]);
        }
        lemma_digits_grow(d.drop_last(), k);
    } else {
        assert(d.subrange(0, k) =~= d);
    }
}

/// The size a normalised (trimmed, upper-case) size string stands for:
/// a number with an optional K, M or G suffix (powers of 1024).
pub open spec fn spec_size_of_upper(u: Seq<char>) -> Option<int> {
    if u.len() > 0 && u.last() == 'K' {
        match spec_parse_u64(u.drop_last()) {
            Some(n) => Some(n * 1024),
            None => None,
        }
    } else if u.len() > 0 && u.last() == 'M' {
        match spec_parse_u64(u.drop_last()) {
            Some(n) => Some(n * 1024 * 1024),
            None => None,
        }
    } else if u.len() > 0 && u.last() == 'G' {
        match spec_parse_u64(u.drop_last()) {
            Some(n) => Some(n * 1024 * 1024 * 1024),
            None => None,
        }
    } else {
        match spec_parse_u64(u) {
            Some(n) => Some(n as int),
            None => None,
        }
    }
}

/// Whether the size a normalised string stands for exceeds `u64`.
pub open spec fn size_overflows(u: Seq<char>) -> bool {
    spec_size_of_upper(u) matches Some(v) && v > u64::MAX
}

/// Parses a normalised size string ("100", "10K", "10M", "1G").
pub fn parse_size_upper(u: &[char]) -> (r: Option<u64>)
    requires
        !size_overflows(u@),
    ensures
        r == (match spec_size_of_upper(u@) {
            Some(v) => Some(v as u64),
            None => None,
        }),
{
    let n = u.len();
    if n > 0 && (u[n - 1] == 'K' || u[n - 1] == 'M' || u[n - 1] == 'G') {
        let num = &u[0..n - 1];
        assert(num@ =~= u@.drop_last());
        let parsed = parse_u64(num);
        match parsed {
            None => None,
            Some(v) => {
                if u[n - 1] == 'K' {
                    Some(v * 1024)
                } else if u[n - 1] == 'M' {
                    Some(v * 1024 * 1024)
                } else {
                    Some(v * 1024 * 1024 * 1024)
                }
            },
        }
    } else {
        parse_u64(u)
    }
}

fn size_overflows_exec(u: &[char]) -> (r: bool)
    ensures
        r == size_overflows(u@),
{
    let n = u.len();
    if n > 0 && (u[n - 1] == 'K' || u[n - 1] == 'M' || u[n - 1] == 'G') {
        let num = &u[0..n - 1];
        assert(num@ =~= u@.drop_last());
        match parse_u64(num) {
            None => false,
            Some(v) => {
                proof {
                    assert((v > u64::MAX / 1024) == (v * 1024 > u64::MAX)) by (nonlinear_arith);
                    assert((v > u64::MAX / 1048576u64) == (v * 1024 * 1024 > u64::MAX))
                        by (nonlinear_arith);
                    assert((v > u64::MAX / 1073741824u64) == (v * 1024 * 1024 * 1024
                        > u64::MAX)) by (nonlinear_arith);
                }
                if u[n - 1] == 'K' {
                    v > u64::MAX / 1024
                } else if u[n - 1] == 'M' {
                    v > u64::MAX / (1024 * 1024)
                } else {
                    v > u64::MAX / (1024 * 1024 * 1024)
                }
            },
        }
    } else {
        false
    }
}

/// The size an upper-case, trimmed text gives: `None` for what is not a
/// size and for a size that does not fit in `u64`.
pub open spec fn size_of_text(u: Seq<char>) -> Option<u64> {
    if size_overflows(u) {
        None
    } else {
        match spec_size_of_upper(u) {
            Some(v) => Some(v as u64),
            None => None,
        }
    }
}

/// A size of ASCII text reads the same in lower case: case does not matter.
pub proof fn law_parse_size_ignores_case(s: Seq<char>)
    requires
        ascii_only(s),
    ensures
        ascii_only(ascii_lower(s)),
        size_of_text(ascii_upper(ascii_trim(ascii_lower(s)))) == size_of_text(ascii_upper(ascii_trim(s))),
{
    lemma_upper_of_lower(s);
    lemma_trim_lower(s);
    lemma_upper_of_lower(ascii_trim(s));
}

/// Parses a size such as "10M", "100K", "1G" or "100" (case and surrounding
/// white space do not matter). Gives `None` for what is not such a size,
/// and for a size that does not fit in `u64`.
pub fn parse_size(s: &str) -> (r: Option<u64>)
    ensures
        r == size_of_text(unicode_uppercase(unicode_trim(s@))),
        ascii_only(s@) ==> r == size_of_text(ascii_upper(ascii_trim(s@))),
{
    let trimmed = trim(s);
    proof {
        lemma_trim_lower(s@);
    }
    let upper = to_uppercase(trimmed.as_str());
    proof {
        if ascii_only(s@) {
            lemma_uppercase_ascii(trimmed@, |c: char| unicode_char_upper(c));
        }
    }
    let u = chars_of(upper.as_str());
    if size_overflows_exec(u.as_slice()) {
        return None;
    }
    parse_size_upper(u.as_slice())
}

// ---------------------------------------------------------------------------
// Rotated file names

/// `Path::file_stem` (empty when there is none), as text.
pub uninterp spec fn path_stem(path: Seq<char>) -> Seq<char>;

/// `Path::extension` (empty when there is none), as text.
pub uninterp spec fn path_extension(path: Seq<char>) -> Seq<char>;

/// `Path::with_file_name`, as text.
pub uninterp spec fn path_with_file_name(path: Seq<char>, name: Seq<char>) -> Seq<char>;

/// `Path::file_stem`.
#[verifier::external_body]
pub(crate) fn file_stem(path: &str) -> (r: String)
    ensures
        r@ == path_stem(path@),
{
    std::path::Path::new(path).file_stem().unwrap_or_default().to_string_lossy().to_string()
}

/// `Path::extension`.
#[verifier::external_body]
pub(crate) fn file_extension(path: &str) -> (r: String)
    ensures
        r@ == path_extension(path@),
{
    std::path::Path::new(path).extension().unwrap_or_default().to_string_lossy().to_string()
}

/// `Path::with_file_name`.
#[verifier::external_body]
pub(crate) fn with_file_name(path: &str, name: &str) -> (r: String)
    ensures
        r@ == path_with_file_name(path@, name@),
{
    std::path::Path::new(path).with_file_name(name).to_string_lossy().to_string()
}

/// The file name of the `index`-th rotated file: the stem, the index, then
/// the extension if there is one ("hdds.log" becomes "hdds.1.log").
pub open spec fn rotated_name(stem: Seq<char>, ext: Seq<char>, index: u32) -> Seq<char> {
    if ext.len() == 0 {
        stem + seq!['.'] + decimal(index as nat)
    } else {
        stem + seq!['.'] + decimal(index as nat) + seq!['.'] + ext
    }
}

/// The path of the `index`-th rotated file of `base`.
pub fn rotated_path(base: &str, index: u32) -> (r: String)
    ensures
        r@ == path_with_file_name(
            base@,
            rotated_name(path_stem(base@), path_extension(base@), index),
        ),
{
    let stem = file_stem(base);
    let ext = file_extension(base);
    let mut name = stem;
    push_char(&mut name, '.');
    push_decimal(&mut name, index as u64);
    if ext.as_str().unicode_len() != 0 {
        push_char(&mut name, '.');
        push_str(&mut name, ext.as_str());
    }
    proof {
        let e: Seq<char> = ext@;
        if e.len() == 0 {
            assert(name@ =~= rotated_name(path_stem(base@), path_extension(base@), index));
        } else {
            assert(name@ =~= rotated_name(path_stem(base@), path_extension(base@), index));
        }
    }
    with_file_name(base, name.as_str())
}

} // verus!
