//! The InfluxDB sink: batching of Line Protocol lines, downsampling, the
//! mapping of DDS samples to tags and fields, and the orchestrator that ties
//! them together.
use vstd::prelude::*;
use std::time::{Duration, Instant};
use crate::clock::{instant_now, elapsed_since, duration_ge, duration_from_millis, duration_at_least, millis_duration};
use crate::influx_line::{lines_view, line_text, FieldValue, LineProtocolWriter, pair_view, field_view};
use crate::influx_mapping::{FieldMapper, JsonValue, mapped_tags, mapped_fields, strings_view, string_pairs_view, field_pairs_view};
use crate::text::{str_eq, string_from_chars, chars_of};

verus! {

// ---------------------------------------------------------------------------
// Batch buffer

/// Collects Line Protocol lines until `max_size` lines are held (a
/// size-based flush) or the flush interval has passed since the last flush
/// (a time-based flush).
pub struct BatchBuffer {
    lines: Vec<String>,
    max_size: usize,
    flush_interval: Duration,
    last_flush: Instant,
}

impl View for BatchBuffer {
    type V = Seq<Seq<char>>;

    /// The buffered lines, oldest first.
    closed spec fn view(&self) -> Seq<Seq<char>> {
        lines_view(self.lines@)
    }
}

impl BatchBuffer {
    /// The number of lines at which `add` flushes.
    pub closed spec fn max_size(&self) -> usize {
        self.max_size
    }

    /// The interval after which a time-based flush is due.
    pub closed spec fn flush_interval(&self) -> Duration {
        self.flush_interval
    }

    /// An empty buffer that flushes at `max_size` lines or after
    /// `flush_interval`.
    pub fn new(max_size: usize, flush_interval: Duration) -> (b: Self)
        ensures
            b@ == Seq::<Seq<char>>::empty(),
            b.max_size() == max_size,
            b.flush_interval() == flush_interval,
    {
        let b = BatchBuffer {
            lines: Vec::new(),
            max_size,
            flush_interval,
            last_flush: instant_now(),
        };
        assert(lines_view(b.lines@) =~= Seq::<Seq<char>>::empty());
        b
    }

    /// Adds a line; when the buffer then holds `max_size` lines or more it is
    /// flushed and the batch returned, else `None`.
    pub fn add(&mut self, line: String) -> (batch: Option<Vec<String>>)
        ensures
            final(self).max_size() == old(self).max_size(),
            final(self).flush_interval() == old(self).flush_interval(),
            old(self)@.len() + 1 >= old(self).max_size() ==> {
                &&& batch is Some
                &&& lines_view(batch->0@) == old(self)@.push(line@)
                &&& final(self)@ == Seq::<Seq<char>>::empty()
            },
            old(self)@.len() + 1 < old(self).max_size() ==> {
                &&& batch is None
                &&& final(self)@ == old(self)@.push(line@)
            },
    {
        let ghost before = self.lines@;
        self.lines.push(line);
        assert(lines_view(self.lines@) =~= lines_view(before).push(line@));
        if self.lines.len() >= self.max_size {
            Some(self.flush())
        } else {
            None
        }
    }

    /// Whether a time-based flush is due, given whether the flush interval
    /// has passed since the last flush: only a buffer that holds lines is due.
    pub fn flush_due(&self, interval_passed: bool) -> (due: bool)
        ensures
            due == (self@.len() > 0 && interval_passed),
    {
        self.lines.len() > 0 && interval_passed
    }

    /// Whether a time-based flush is due: the buffer holds lines and the
    /// flush interval has passed since the last flush.
    pub fn should_flush(&self) -> (due: bool)
        ensures
            exists|elapsed: Duration| due == (self@.len() > 0 && #[trigger] duration_at_least(elapsed, self.flush_interval())),
    {
        let since = elapsed_since(&self.last_flush);
        let passed = duration_ge(&since, &self.flush_interval);
        assert(passed == duration_at_least(since, self.flush_interval()));
        self.flush_due(passed)
    }

    /// Returns all buffered lines, empties the buffer and restarts the timer.
    pub fn flush(&mut self) -> (batch: Vec<String>)
        ensures
            lines_view(batch@) == old(self)@,
            final(self)@ == Seq::<Seq<char>>::empty(),
            final(self).max_size() == old(self).max_size(),
            final(self).flush_interval() == old(self).flush_interval(),
    {
        self.last_flush = instant_now();
        let mut batch: Vec<String> = Vec::new();
        std::mem::swap(&mut batch, &mut self.lines);
        assert(lines_view(self.lines@) =~= Seq::<Seq<char>>::empty());
        batch
    }

    /// The number of buffered lines.
    pub fn len(&self) -> (n: usize)
        ensures
            n == self@.len(),
    {
        self.lines.len()
    }

    /// Whether no line is buffered.
    pub fn is_empty(&self) -> (b: bool)
        ensures
            b == (self@.len() == 0),
    {
        self.lines.len() == 0
    }
}

// ---------------------------------------------------------------------------
// Downsampling

/// The least spacing between accepted samples for a rate in samples per
/// second: none for a rate of zero, else a second divided by the rate.
pub open spec fn min_interval_for(samples_per_second: u32) -> u64 {
    if samples_per_second == 0 {
        0
    } else {
        (1_000_000_000u64 / samples_per_second as u64) as u64
    }
}

/// A rate of `r` samples per second spaces accepted samples by one second
/// divided by `r`, rounded down: `r` spacings fit in a second and `r`
/// spacings one nanosecond longer do not. A rate of zero imposes no spacing.
pub proof fn law_min_interval_is_second_over_rate(samples_per_second: u32)
    ensures
        samples_per_second == 0 ==> min_interval_for(samples_per_second) == 0,
        samples_per_second > 0 ==> min_interval_for(samples_per_second) * samples_per_second <= 1_000_000_000
            < (min_interval_for(samples_per_second) + 1) * samples_per_second,
{
    if samples_per_second > 0 {
        let r = samples_per_second as int;
        let q = min_interval_for(samples_per_second) as int;
        assert(q == 1_000_000_000int / r);
        assert(q * r <= 1_000_000_000 < (q + 1) * r) by (nonlinear_arith)
            requires
                r > 0,
                q == 1_000_000_000int / r,
        {
            vstd::arithmetic::div_mod::lemma_fundamental_div_mod(1_000_000_000int, r);
        }
    }
}

/// Rate limiter for downsampling: accepts a sample when at least the
/// minimum interval has passed since the last accepted one.
pub struct RateLimiter {
    pub min_interval_ns: u64,
    pub last_sample_ns: u64,
}

impl RateLimiter {
    pub fn new(samples_per_second: u32) -> (r: Self)
        ensures
            r.min_interval_ns == min_interval_for(samples_per_second),
            r.last_sample_ns == 0,
            samples_per_second == 0 ==> r.min_interval_ns == 0,
            samples_per_second > 0 ==> r.min_interval_ns * samples_per_second <= 1_000_000_000
                < (r.min_interval_ns + 1) * samples_per_second,
    {
        proof {
            law_min_interval_is_second_over_rate(samples_per_second);
        }
        let min_interval_ns: u64 = if samples_per_second == 0 {
            0
        } else {
            1_000_000_000u64 / (samples_per_second as u64)
        };
        RateLimiter { min_interval_ns, last_sample_ns: 0 }
    }

    /// Whether the sample at `timestamp_ns` is accepted; an accepted sample
    /// becomes the last one. With no minimum interval every sample passes.
    pub fn should_accept(&mut self, timestamp_ns: u64) -> (accepted: bool)
        ensures
            final(self).min_interval_ns == old(self).min_interval_ns,
            old(self).min_interval_ns == 0 ==> accepted && final(self).last_sample_ns == old(
                self,
            ).last_sample_ns,
            old(self).min_interval_ns != 0 ==> accepted == (timestamp_ns >= old(
                self,
            ).last_sample_ns + old(self).min_interval_ns),
            old(self).min_interval_ns != 0 && accepted ==> final(self).last_sample_ns
                == timestamp_ns,
            !accepted ==> final(self).last_sample_ns == old(self).last_sample_ns,
    {
        if self.min_interval_ns == 0 {
            return true;
        }
        match self.last_sample_ns.checked_add(self.min_interval_ns) {
            Some(next) => {
                if timestamp_ns >= next {
                    self.last_sample_ns = timestamp_ns;
                    true
                } else {
                    false
                }
            },
            None => false,
        }
    }
}

// ---------------------------------------------------------------------------
// Configuration

/// Configuration of one DDS topic's sink.
#[derive(Clone)]
pub struct TopicSinkConfig {
    /// DDS topic name to subscribe to.
    pub topic: String,
    /// InfluxDB measurement name.
    pub measurement: String,
    /// Sample fields used as InfluxDB tags.
    pub tags: Vec<String>,
    /// Sample fields used as InfluxDB fields.
    pub fields: Vec<String>,
    /// Most samples per second kept (downsampling); `None` keeps all.
    pub sample_rate: Option<u32>,
    /// Lines batched before a flush; `None` is the default of 1000.
    pub batch_size: Option<usize>,
    /// Flush interval in milliseconds; `None` is the default of 1000.
    pub flush_interval_ms: Option<u64>,
}

/// InfluxDB v2 connection settings.
#[derive(Clone)]
pub struct InfluxDbConfig {
    pub url: String,
    pub org: String,
    pub bucket: String,
    pub token: String,
}

/// The sink's configuration: one entry per topic sink, and the database.
#[derive(Clone)]
pub struct SinkConfig {
    pub sinks: Vec<TopicSinkConfig>,
    pub influxdb: InfluxDbConfig,
}

pub const DEFAULT_BATCH_SIZE: usize = 1000;

pub const DEFAULT_FLUSH_INTERVAL_MS: u64 = 1000;

// ---------------------------------------------------------------------------
// Sink

/// Errors of the sink.
#[derive(Debug)]
pub enum SinkError {
    /// No sink is configured for the topic.
    UnknownTopic(String),
    /// The sample gave no field (InfluxDB needs at least one).
    NoFields(String),
}

impl SinkError {
    /// The error's message.
    pub fn message(&self) -> (m: String)
        ensures
            m@ == sink_error_message(*self),
    {
        match self {
            SinkError::UnknownTopic(t) => {
                let mut m = String::from_str("no sink configured for topic: ");
                m.append(t.as_str());
                m
            },
            SinkError::NoFields(t) => {
                let mut m = String::from_str("sample from topic '");
                m.append(t.as_str());
                m.append("' produced no fields");
                m
            },
        }
    }
}

pub open spec fn sink_error_message(e: SinkError) -> Seq<char> {
    match e {
        SinkError::UnknownTopic(t) => "no sink configured for topic: "@ + t@,
        SinkError::NoFields(t) => "sample from topic '"@ + t@ + "' produced no fields"@,
    }
}

/// What the sink holds for one topic.
pub struct TopicView {
    pub topic: Seq<char>,
    /// The measurement of the first sink configured for the topic.
    pub measurement: Seq<char>,
    /// Tag and field names of the last sink configured for the topic.
    pub tag_names: Seq<Seq<char>>,
    pub field_names: Seq<Seq<char>>,
    /// The rate limiter (least spacing, last accepted time) of the last sink
    /// of the topic that set a sample rate.
    pub limiter: Option<(u64, u64)>,
    /// The lines recorded since the last flush, oldest first (full batches
    /// and the batch being filled), and the batch size of the last sink of
    /// the topic.
    pub lines: Seq<Seq<char>>,
    pub max_size: usize,
    /// The flush interval of the last sink of the topic.
    pub flush_interval: Duration,
}

/// The first topic entry for `t`, or -1.
pub open spec fn find_topic(ts: Seq<TopicView>, t: Seq<char>) -> int
    decreases ts.len(),
{
    if ts.len() == 0 {
        -1
    } else {
        let k = find_topic(ts.drop_last(), t);
        if k >= 0 {
            k
        } else if ts.last().topic == t {
            ts.len() - 1
        } else {
            -1
        }
    }
}

pub open spec fn limiter_of(rate: Option<u32>, prior: Option<(u64, u64)>) -> Option<(u64, u64)> {
    match rate {
        Some(r) => Some((min_interval_for(r), 0u64)),
        None => prior,
    }
}

pub open spec fn batch_size_of(c: TopicSinkConfig) -> usize {
    match c.batch_size {
        Some(b) => b,
        None => DEFAULT_BATCH_SIZE,
    }
}

/// The topics set up from sink configurations, as a map keyed by topic:
/// a later configuration of the same topic replaces its mapper and buffer,
/// and its rate limiter when it sets a rate; the measurement is the first's.
pub open spec fn flush_interval_of(c: TopicSinkConfig) -> u64 {
    match c.flush_interval_ms {
        Some(f) => f,
        None => DEFAULT_FLUSH_INTERVAL_MS,
    }
}

pub open spec fn configured_topics(cfgs: Seq<TopicSinkConfig>) -> Seq<TopicView>
    decreases cfgs.len(),
{
    if cfgs.len() == 0 {
        Seq::empty()
    } else {
        let r = configured_topics(cfgs.drop_last());
        let c = cfgs.last();
        let k = find_topic(r, c.topic@);
        if k >= 0 {
            r.update(
                k,
                TopicView {
                    topic: r[k].topic,
                    measurement: r[k].measurement,
                    tag_names: strings_view(c.tags@),
                    field_names: strings_view(c.fields@),
                    limiter: limiter_of(c.sample_rate, r[k].limiter),
                    lines: Seq::empty(),
                    max_size: batch_size_of(c),
                    flush_interval: millis_duration(flush_interval_of(c)),
                },
            )
        } else {
            r.push(
                TopicView {
                    topic: c.topic@,
                    measurement: c.measurement@,
                    tag_names: strings_view(c.tags@),
                    field_names: strings_view(c.fields@),
                    limiter: limiter_of(c.sample_rate, None),
                    lines: Seq::empty(),
                    max_size: batch_size_of(c),
                    flush_interval: millis_duration(flush_interval_of(c)),
                },
            )
        }
    }
}

/// Whether a limiter lets a sample at `ts` through.
pub open spec fn limiter_accepts(l: Option<(u64, u64)>, ts: u64) -> bool {
    match l {
        Some((min, last)) => min == 0 || ts >= last + min,
        None => true,
    }
}

/// The limiter after a sample at `ts` was let through.
pub open spec fn limiter_after(l: Option<(u64, u64)>, ts: u64) -> Option<(u64, u64)> {
    match l {
        Some((min, last)) => if min == 0 {
            l
        } else {
            Some((min, ts))
        },
        None => None,
    }
}

/// Two samples the limiter lets through one after the other are at least
/// its minimum interval apart.
pub proof fn law_limiter_spacing(min: u64, last: u64, t1: u64, t2: u64)
    requires
        min > 0,
        limiter_accepts(Some((min, last)), t1),
        limiter_accepts(limiter_after(Some((min, last)), t1), t2),
    ensures
        t2 >= t1 + min,
        limiter_after(limiter_after(Some((min, last)), t1), t2) == Some((min, t2)),
{
}

// ---------------------------------------------------------------------------
// Runs of recorded samples

/// One call of `record_sample`: the topic, the sample and its time stamp.
pub struct SampleCall {
    pub topic: Seq<char>,
    pub sample: JsonValue,
    pub timestamp_ns: u64,
}

/// What one call of `record_sample` comes to.
pub enum SampleOutcome {
    /// No sink is configured for the topic (an error).
    UnknownTopic,
    /// The topic's rate limiter dropped the sample (no error).
    Dropped,
    /// The sample produced no fields (an error).
    NoFields,
    /// The sample was recorded as this line.
    Recorded(Seq<char>),
}

/// The topics after one call, and what the call came to.
pub open spec fn record_step(ts: Seq<TopicView>, c: SampleCall) -> (Seq<TopicView>, SampleOutcome) {
    let k = find_topic(ts, c.topic);
    if k < 0 {
        (ts, SampleOutcome::UnknownTopic)
    } else {
        let tv = ts[k];
        if !limiter_accepts(tv.limiter, c.timestamp_ns) {
            (ts, SampleOutcome::Dropped)
        } else {
            let accepted = TopicView { limiter: limiter_after(tv.limiter, c.timestamp_ns), ..tv };
            let fields = mapped_fields(c.sample, tv.field_names);
            if fields.len() == 0 {
                (ts.update(k, accepted), SampleOutcome::NoFields)
            } else {
                let line = line_text(tv.measurement, mapped_tags(c.sample, tv.tag_names), fields, c.timestamp_ns);
                (ts.update(k, TopicView { lines: tv.lines.push(line), ..accepted }), SampleOutcome::Recorded(line))
            }
        }
    }
}

/// The topics after a run of calls.
pub open spec fn record_run(ts: Seq<TopicView>, calls: Seq<SampleCall>) -> Seq<TopicView>
    decreases calls.len(),
{
    if calls.len() == 0 {
        ts
    } else {
        record_step(record_run(ts, calls.drop_last()), calls.last()).0
    }
}

/// What each call of a run came to, in order.
pub open spec fn run_outcomes(ts: Seq<TopicView>, calls: Seq<SampleCall>) -> Seq<SampleOutcome>
    decreases calls.len(),
{
    if calls.len() == 0 {
        Seq::empty()
    } else {
        run_outcomes(ts, calls.drop_last()).push(record_step(record_run(ts, calls.drop_last()), calls.last()).1)
    }
}

/// The lines a run recorded on the topic at index `k`, in call order.
pub open spec fn recorded_on(ts: Seq<TopicView>, calls: Seq<SampleCall>, k: int) -> Seq<Seq<char>>
    decreases calls.len(),
{
    if calls.len() == 0 {
        Seq::empty()
    } else {
        let prior = record_run(ts, calls.drop_last());
        let earlier = recorded_on(ts, calls.drop_last(), k);
        match record_step(prior, calls.last()).1 {
            SampleOutcome::Recorded(line) => if find_topic(prior, calls.last().topic) == k {
                earlier.push(line)
            } else {
                earlier
            },
            _ => earlier,
        }
    }
}

/// How many outcomes of a run satisfy `p`.
pub open spec fn count_outcomes(os: Seq<SampleOutcome>, p: spec_fn(SampleOutcome) -> bool) -> nat
    decreases os.len(),
{
    if os.len() == 0 {
        0
    } else {
        count_outcomes(os.drop_last(), p) + if p(os.last()) { 1nat } else { 0nat }
    }
}

pub open spec fn is_recorded() -> spec_fn(SampleOutcome) -> bool {
    |o: SampleOutcome| o is Recorded
}

pub open spec fn is_dropped() -> spec_fn(SampleOutcome) -> bool {
    |o: SampleOutcome| o is Dropped
}

/// The outcomes on which `record_sample` returns `Ok`.
pub open spec fn is_ok_outcome() -> spec_fn(SampleOutcome) -> bool {
    |o: SampleOutcome| o is Recorded || o is Dropped
}

proof fn lemma_step_keeps_topics(ts: Seq<TopicView>, c: SampleCall)
    ensures
        record_step(ts, c).0.len() == ts.len(),
        forall|j: int| 0 <= j < ts.len() ==> (#[trigger] record_step(ts, c).0[j]).topic == ts[j].topic,
        forall|j: int| 0 <= j < ts.len() ==> (#[trigger] record_step(ts, c).0[j]).lines == (match record_step(ts, c).1 {
            SampleOutcome::Recorded(line) => if j == find_topic(ts, c.topic) {
                ts[j].lines.push(line)
            } else {
                ts[j].lines
            },
            _ => ts[j].lines,
        }),
{
    lemma_find_topic_range(ts, c.topic);
}

proof fn lemma_find_topic_range(ts: Seq<TopicView>, t: Seq<char>)
    ensures
        -1 <= find_topic(ts, t) < ts.len(),
    decreases ts.len(),
{
    if ts.len() > 0 {
        lemma_find_topic_range(ts.drop_last(), t);
    }
}

proof fn lemma_find_topic_same_names(a: Seq<TopicView>, b: Seq<TopicView>, t: Seq<char>)
    requires
        a.len() == b.len(),
        forall|j: int| 0 <= j < a.len() ==> (#[trigger] a[j]).topic == b[j].topic,
    ensures
        find_topic(a, t) == find_topic(b, t),
    decreases a.len(),
{
    if a.len() > 0 {
        lemma_find_topic_same_names(a.drop_last(), b.drop_last(), t);
        assert(a.last().topic == b[b.len() - 1].topic);
    }
}

/// No recorded sample is lost: after any run of `record_sample` calls, each
/// topic holds its earlier lines followed by the line of every sample
/// recorded on it, in call order; `flush_all` returns them all. The topics
/// themselves do not change.
pub proof fn law_run_keeps_every_line(ts: Seq<TopicView>, calls: Seq<SampleCall>)
    ensures
        record_run(ts, calls).len() == ts.len(),
        forall|k: int| 0 <= k < ts.len() ==> (#[trigger] record_run(ts, calls)[k]).topic == ts[k].topic,
        forall|k: int| 0 <= k < ts.len() ==> (#[trigger] record_run(ts, calls)[k]).lines == ts[k].lines + recorded_on(ts, calls, k),
    decreases calls.len(),
{
    if calls.len() == 0 {
        assert forall|k: int| 0 <= k < ts.len() implies (#[trigger] record_run(ts, calls)[k]).lines == ts[k].lines + recorded_on(ts, calls, k) by {
            assert(ts[k].lines + Seq::<Seq<char>>::empty() =~= ts[k].lines);
        }
    } else {
        let prior = record_run(ts, calls.drop_last());
        law_run_keeps_every_line(ts, calls.drop_last());
        lemma_step_keeps_topics(prior, calls.last());
        assert forall|k: int| 0 <= k < ts.len() implies (#[trigger] record_run(ts, calls)[k]).lines == ts[k].lines + recorded_on(ts, calls, k) by {
            assert(prior[k].lines == ts[k].lines + recorded_on(ts, calls.drop_last(), k));
            match record_step(prior, calls.last()).1 {
                SampleOutcome::Recorded(line) => {
                    if k == find_topic(prior, calls.last().topic) {
                        assert(ts[k].lines + recorded_on(ts, calls.drop_last(), k).push(line) =~= (ts[k].lines
                            + recorded_on(ts, calls.drop_last(), k)).push(line));
                    }
                },
                _ => {},
            }
        }
        assert forall|k: int| 0 <= k < ts.len() implies (#[trigger] record_run(ts, calls)[k]).topic == ts[k].topic by {
            assert(prior[k].topic == ts[k].topic);
        }
    }
}

/// Over any run, the calls that return `Ok` are exactly the recorded and
/// the dropped samples, and a sample is dropped exactly when its topic's
/// rate limiter refuses it.
pub proof fn law_run_counts(ts: Seq<TopicView>, calls: Seq<SampleCall>)
    ensures
        run_outcomes(ts, calls).len() == calls.len(),
        count_outcomes(run_outcomes(ts, calls), is_ok_outcome()) == count_outcomes(run_outcomes(ts, calls), is_recorded())
            + count_outcomes(run_outcomes(ts, calls), is_dropped()),
        forall|i: int| 0 <= i < calls.len() ==> ((#[trigger] run_outcomes(ts, calls)[i]) is Dropped <==> {
            let prior = record_run(ts, calls.take(i));
            let k = find_topic(prior, calls[i].topic);
            k >= 0 && !limiter_accepts(prior[k].limiter, calls[i].timestamp_ns)
        }),
    decreases calls.len(),
{
    if calls.len() > 0 {
        let d = calls.drop_last();
        law_run_counts(ts, d);
        let os = run_outcomes(ts, calls);
        assert(os.drop_last() =~= run_outcomes(ts, d));
        assert forall|i: int| 0 <= i < calls.len() implies ((#[trigger] run_outcomes(ts, calls)[i]) is Dropped <==> {
            let prior = record_run(ts, calls.take(i));
            let k = find_topic(prior, calls[i].topic);
            k >= 0 && !limiter_accepts(prior[k].limiter, calls[i].timestamp_ns)
        }) by {
            if i < calls.len() - 1 {
                assert(calls.take(i) =~= d.take(i));
                assert(calls[i] == d[i]);
                assert(os[i] == run_outcomes(ts, d)[i]);
            } else {
                assert(calls.take(i) =~= d);
            }
        }
    }
}

/// All lines waiting to be flushed, topic by topic.
pub open spec fn all_lines(ts: Seq<TopicView>) -> Seq<Seq<char>>
    decreases ts.len(),
{
    if ts.len() == 0 {
        Seq::empty()
    } else {
        all_lines(ts.drop_last()) + ts.last().lines
    }
}

pub open spec fn emptied(t: TopicView) -> TopicView {
    TopicView { lines: Seq::empty(), ..t }
}

struct TopicState {
    topic: String,
    measurement: String,
    mapper: FieldMapper,
    buffer: BatchBuffer,
    /// Full batches the buffer handed out, kept for the next flush.
    ready: Vec<String>,
    limiter: Option<RateLimiter>,
}

spec fn limiter_view(l: Option<RateLimiter>) -> Option<(u64, u64)> {
    match l {
        Some(r) => Some((r.min_interval_ns, r.last_sample_ns)),
        None => None,
    }
}

impl TopicState {
    spec fn view(&self) -> TopicView {
        TopicView {
            topic: self.topic@,
            measurement: self.measurement@,
            tag_names: strings_view(self.mapper.tag_fields@),
            field_names: strings_view(self.mapper.value_fields@),
            limiter: limiter_view(self.limiter),
            lines: lines_view(self.ready@) + self.buffer@,
            max_size: self.buffer.max_size(),
            flush_interval: self.buffer.flush_interval(),
        }
    }
}

spec fn states_view(v: Seq<TopicState>) -> Seq<TopicView> {
    v.map_values(|s: TopicState| s.view())
}

/// DDS-to-InfluxDB sink: maps JSON samples to Line Protocol lines,
/// downsamples them and batches them per topic.
pub struct DdsSink {
    config: SinkConfig,
    topics: Vec<TopicState>,
    samples_recorded: u64,
    samples_dropped: u64,
}

impl DdsSink {
    /// The topics, in the order of their first configuration.
    pub closed spec fn topics(&self) -> Seq<TopicView> {
        states_view(self.topics@)
    }

    pub closed spec fn recorded(&self) -> u64 {
        self.samples_recorded
    }

    pub closed spec fn dropped(&self) -> u64 {
        self.samples_dropped
    }

    pub closed spec fn config_spec(&self) -> SinkConfig {
        self.config
    }

    fn find(&self, topic: &str) -> (k: Option<usize>)
        ensures
            match k {
                Some(i) => find_topic(self.topics(), topic@) == i && i < self.topics@.len(),
                None => find_topic(self.topics(), topic@) == -1,
            },
    {
        let mut i: usize = 0;
        while i < self.topics.len()
            invariant
                i <= self.topics@.len(),
                find_topic(states_view(self.topics@).take(i as int), topic@) == -1,
            decreases self.topics@.len() - i,
        {
            let ghost tv = states_view(self.topics@);
            assert(tv.take(i + 1).drop_last() =~= tv.take(i as int));
            if str_eq(self.topics[i].topic.as_str(), topic) {
                proof {
                    lemma_find_prefix(tv, i + 1, topic@);
                }
                return Some(i);
            }
            i = i + 1;
        }
        assert(states_view(self.topics@).take(self.topics@.len() as int) =~= states_view(self.topics@));
        None
    }

    /// A sink set up from its configuration.
    pub fn from_config(config: SinkConfig) -> (s: Self)
        ensures
            s.topics() == configured_topics(config.sinks@),
            s.config_spec() == config,
            s.recorded() == 0,
            s.dropped() == 0,
    {
        let mut sink = DdsSink { config, topics: Vec::new(), samples_recorded: 0, samples_dropped: 0 };
        let mut i: usize = 0;
        let ghost cfgs = sink.config.sinks@;
        assert(cfgs.take(0) =~= Seq::<TopicSinkConfig>::empty());
        assert(states_view(sink.topics@) =~= Seq::<TopicView>::empty());
        while i < sink.config.sinks.len()
            invariant
                i <= cfgs.len(),
                cfgs == sink.config.sinks@,
                sink.config == config,
                sink.samples_recorded == 0,
                sink.samples_dropped == 0,
                sink.topics() == configured_topics(cfgs.take(i as int)),
            decreases cfgs.len() - i,
        {
            let c = &sink.config.sinks[i];
            assert(cfgs.take(i + 1).drop_last() =~= cfgs.take(i as int));
            assert(cfgs.take(i + 1).last() == *c);
            let batch_size = match c.batch_size {
                Some(b) => b,
                None => DEFAULT_BATCH_SIZE,
            };
            let flush_ms = match c.flush_interval_ms {
                Some(f) => f,
                None => DEFAULT_FLUSH_INTERVAL_MS,
            };
            let buffer = BatchBuffer::new(batch_size, duration_from_millis(flush_ms));
            let mapper = FieldMapper::new(c.tags.clone(), c.fields.clone());
            let ghost before = states_view(sink.topics@);
            match sink.find(c.topic.as_str()) {
                Some(k) => {
                    let mut st = sink.topics.remove(k);
                    st.mapper = mapper;
                    st.buffer = buffer;
                    st.ready = Vec::new();
                    match c.sample_rate {
                        Some(r) => {
                            st.limiter = Some(RateLimiter::new(r));
                        },
                        None => {},
                    }
                    sink.topics.insert(k, st);
                    assert(states_view(sink.topics@) =~= before.update(k as int, st.view()));
                },
                None => {
                    let limiter = match c.sample_rate {
                        Some(r) => Some(RateLimiter::new(r)),
                        None => None,
                    };
                    let st = TopicState {
                        topic: c.topic.clone(),
                        measurement: c.measurement.clone(),
                        mapper,
                        buffer,
                        ready: Vec::new(),
                        limiter,
                    };
                    sink.topics.push(st);
                    assert(states_view(sink.topics@) =~= before.push(st.view()));
                },
            }
            i = i + 1;
        }
        assert(cfgs.take(cfgs.len() as int) =~= cfgs);
        sink
    }

    /// Records one DDS sample of a topic: the sample is downsampled if a
    /// rate is set, mapped to tags and fields, written as a line and added
    /// to the topic's batch; a batch that fills is kept for the next flush.
    /// A sample the rate limiter drops is counted and is no error.
    pub fn record_sample(&mut self, topic: &str, sample: &JsonValue, timestamp_ns: u64) -> (r: Result<(), SinkError>)
        requires
            old(self).recorded() < u64::MAX,
            old(self).dropped() < u64::MAX,
        ensures
            final(self).config_spec() == old(self).config_spec(),
            ({
                let step = record_step(
                    old(self).topics(),
                    (SampleCall { topic: topic@, sample: *sample, timestamp_ns }),
                );
                &&& final(self).topics() == step.0
                &&& (r is Ok <==> is_ok_outcome()(step.1))
                &&& final(self).recorded() == old(self).recorded() + if step.1 is Recorded { 1int } else { 0int }
                &&& final(self).dropped() == old(self).dropped() + if step.1 is Dropped { 1int } else { 0int }
            }),
            r is Ok ==> final(self).recorded() + final(self).dropped() == old(self).recorded() + old(self).dropped() + 1,
            r is Err ==> final(self).recorded() == old(self).recorded() && final(self).dropped() == old(self).dropped(),
            (final(self).dropped() == old(self).dropped() + 1) == (find_topic(old(self).topics(), topic@) >= 0
                && !limiter_accepts(old(self).topics()[find_topic(old(self).topics(), topic@)].limiter, timestamp_ns)),
            ({
                let k = find_topic(old(self).topics(), topic@);
                let tv = old(self).topics()[k];
                let tags = mapped_tags(*sample, tv.tag_names);
                let fields = mapped_fields(*sample, tv.field_names);
                let accepted = TopicView { limiter: limiter_after(tv.limiter, timestamp_ns), ..tv };
                if k < 0 {
                    &&& r matches Err(SinkError::UnknownTopic(t)) && t@ == topic@
                    &&& final(self).topics() == old(self).topics()
                    &&& final(self).recorded() == old(self).recorded()
                    &&& final(self).dropped() == old(self).dropped()
                } else if !limiter_accepts(tv.limiter, timestamp_ns) {
                    &&& r is Ok
                    &&& final(self).topics() == old(self).topics()
                    &&& final(self).recorded() == old(self).recorded()
                    &&& final(self).dropped() == old(self).dropped() + 1
                } else if fields.len() == 0 {
                    &&& r matches Err(SinkError::NoFields(t)) && t@ == topic@
                    &&& final(self).topics() == old(self).topics().update(k, accepted)
                    &&& final(self).recorded() == old(self).recorded()
                    &&& final(self).dropped() == old(self).dropped()
                } else {
                    &&& r is Ok
                    &&& final(self).topics() == old(self).topics().update(
                        k,
                        TopicView {
                            lines: tv.lines.push(line_text(tv.measurement, tags, fields, timestamp_ns)),
                            ..accepted
                        },
                    )
                    &&& final(self).recorded() == old(self).recorded() + 1
                    &&& final(self).dropped() == old(self).dropped()
                }
            }),
    {
        let ghost before = states_view(self.topics@);
        let k = match self.find(topic) {
            Some(k) => k,
            None => {
                let t = chars_of(topic);
                return Err(SinkError::UnknownTopic(string_from_chars(t.as_slice())));
            },
        };
        let mut st = self.topics.remove(k);
        assert(st.view() == before[k as int]);
        let ghost tv = st.view();
        match st.limiter {
            Some(ref mut lim) => {
                if !lim.should_accept(timestamp_ns) {
                    self.topics.insert(k, st);
                    assert(states_view(self.topics@) =~= before);
                    self.samples_dropped = self.samples_dropped + 1;
                    return Ok(());
                }
            },
            None => {},
        }
        assert(st.view() == TopicView { limiter: limiter_after(tv.limiter, timestamp_ns), ..tv });
        let (tags, fields) = st.mapper.map_sample(sample);
        if fields.len() == 0 {
            self.topics.insert(k, st);
            assert(states_view(self.topics@) =~= before.update(k as int, st.view()));
            let t = chars_of(topic);
            return Err(SinkError::NoFields(string_from_chars(t.as_slice())));
        }
        let mut tag_refs: Vec<(&str, &str)> = Vec::new();
        let mut i: usize = 0;
        while i < tags.len()
            invariant
                i <= tags@.len(),
                tag_refs@.map_values(|p: (&str, &str)| pair_view(p)) == string_pairs_view(tags@).take(i as int),
            decreases tags@.len() - i,
        {
            let ghost prior = tag_refs@;
            let a = tags[i].0.as_str();
            let b = tags[i].1.as_str();
            tag_refs.push((a, b));
            proof {
                let sv = string_pairs_view(tags@);
                assert(pair_view((a, b)) == sv[i as int]);
                assert(sv.take(i + 1) =~= sv.take(i as int).push(sv[i as int]));
                assert(tag_refs@.map_values(|p: (&str, &str)| pair_view(p)) =~= prior.map_values(
                    |p: (&str, &str)| pair_view(p),
                ).push(pair_view((a, b))));
            }
            i = i + 1;
        }
        assert(string_pairs_view(tags@).take(tags@.len() as int) =~= string_pairs_view(tags@));
        let mut field_refs: Vec<(&str, FieldValue)> = Vec::new();
        let mut j: usize = 0;
        while j < fields.len()
            invariant
                j <= fields@.len(),
                field_refs@.map_values(|p: (&str, FieldValue)| field_view(p)) == field_pairs_view(fields@).take(j as int),
            decreases fields@.len() - j,
        {
            let ghost prior = field_refs@;
            let a = fields[j].0.as_str();
            let b = fields[j].1.duplicate();
            let ghost bv = b;
            field_refs.push((a, b));
            proof {
                let sv = field_pairs_view(fields@);
                assert(field_view((a, bv)) == sv[j as int]);
                assert(sv.take(j + 1) =~= sv.take(j as int).push(sv[j as int]));
                assert(field_refs@.map_values(|p: (&str, FieldValue)| field_view(p)) =~= prior.map_values(
                    |p: (&str, FieldValue)| field_view(p),
                ).push(field_view((a, bv))));
            }
            j = j + 1;
        }
        assert(field_pairs_view(fields@).take(fields@.len() as int) =~= field_pairs_view(fields@));
        let mut writer = LineProtocolWriter::new();
        writer.write_point(st.measurement.as_str(), tag_refs.as_slice(), field_refs.as_slice(), timestamp_ns);
        let mut lines = writer.flush();
        assert(lines_view(lines@).len() == 1);
        assert(lines@.len() == 1);
        let ghost lv = lines_view(lines@);
        let line = lines.pop().unwrap();
        assert(line@ == lv[0]);
        let ghost text = line_text(tv.measurement, mapped_tags(*sample, tv.tag_names), mapped_fields(*sample, tv.field_names), timestamp_ns);
        assert(line@ == text);
        let ghost mid = st.view();
        let ghost r0 = lines_view(st.ready@);
        let ghost b0 = st.buffer@;
        match st.buffer.add(line) {
            Some(mut batch) => {
                let ghost bv = lines_view(batch@);
                st.ready.append(&mut batch);
                assert(lines_view(st.ready@) =~= r0 + bv);
            },
            None => {},
        }
        assert(st.view().lines =~= tv.lines.push(text));
        assert(st.view() == TopicView { lines: tv.lines.push(text), ..mid });
        self.topics.insert(k, st);
        assert(states_view(self.topics@) =~= before.update(k as int, st.view()));
        self.samples_recorded = self.samples_recorded + 1;
        Ok(())
    }

    /// Flushes every topic and returns all the lines recorded since the
    /// last flush, topic by topic, each topic's in the order recorded.
    pub fn flush_all(&mut self) -> (lines: Vec<String>)
        ensures
            lines_view(lines@) == all_lines(old(self).topics()),
            final(self).topics() == old(self).topics().map_values(|t: TopicView| emptied(t)),
            final(self).recorded() == old(self).recorded(),
            final(self).dropped() == old(self).dropped(),
            final(self).config_spec() == old(self).config_spec(),
    {
        let ghost before = states_view(self.topics@);
        let mut all: Vec<String> = Vec::new();
        let mut i: usize = 0;
        assert(lines_view(all@) =~= all_lines(before.take(0)));
        while i < self.topics.len()
            invariant
                i <= self.topics@.len(),
                before.len() == self.topics@.len(),
                self.config == old(self).config,
                self.samples_recorded == old(self).samples_recorded,
                self.samples_dropped == old(self).samples_dropped,
                lines_view(all@) == all_lines(before.take(i as int)),
                forall|j: int| 0 <= j < i ==> #[trigger] states_view(self.topics@)[j] == emptied(before[j]),
                forall|j: int| i <= j < before.len() ==> #[trigger] states_view(self.topics@)[j] == before[j],
            decreases self.topics@.len() - i,
        {
            let ghost prior = states_view(self.topics@);
            assert(prior[i as int] == before[i as int]);
            let mut st = self.topics.remove(i);
            assert(st.view() == before[i as int]);
            let mut batch: Vec<String> = Vec::new();
            std::mem::swap(&mut batch, &mut st.ready);
            let ghost rv = lines_view(batch@);
            let mut rest = st.buffer.flush();
            batch.append(&mut rest);
            assert(lines_view(st.ready@) =~= Seq::<Seq<char>>::empty());
            assert(lines_view(batch@) =~= before[i as int].lines);
            self.topics.insert(i, st);
            assert(states_view(self.topics@) =~= prior.update(i as int, emptied(before[i as int])));
            let ghost a = all@;
            all.append(&mut batch);
            assert(before.take(i + 1).drop_last() =~= before.take(i as int));
            assert(lines_view(all@) =~= lines_view(a) + before[i as int].lines);
            i = i + 1;
        }
        assert(before.take(before.len() as int) =~= before);
        assert(states_view(self.topics@) =~= before.map_values(|t: TopicView| emptied(t)));
        all
    }

    /// The number of samples recorded.
    pub fn samples_recorded(&self) -> (n: u64)
        ensures
            n == self.recorded(),
    {
        self.samples_recorded
    }

    /// The number of samples the rate limiters dropped.
    pub fn samples_dropped(&self) -> (n: u64)
        ensures
            n == self.dropped(),
    {
        self.samples_dropped
    }

    /// The configuration the sink was set up from.
    pub fn config(&self) -> (c: &SinkConfig)
        ensures
            *c == self.config_spec(),
    {
        &self.config
    }
}

proof fn lemma_find_prefix(ts: Seq<TopicView>, n: int, t: Seq<char>)
    requires
        0 < n <= ts.len(),
        find_topic(ts.take(n - 1), t) == -1,
        ts[n - 1].topic == t,
    ensures
        find_topic(ts, t) == n - 1,
    decreases ts.len() - n,
{
    assert(ts.take(n).drop_last() =~= ts.take(n - 1));
    assert(find_topic(ts.take(n), t) == n - 1);
    if n < ts.len() {
        lemma_find_extends(ts, n, t);
    } else {
        assert(ts.take(n) =~= ts);
    }
}

proof fn lemma_find_extends(ts: Seq<TopicView>, n: int, t: Seq<char>)
    requires
        0 <= n <= ts.len(),
        find_topic(ts.take(n), t) >= 0,
    ensures
        find_topic(ts, t) == find_topic(ts.take(n), t),
    decreases ts.len() - n,
{
    if n < ts.len() {
        assert(ts.take(n + 1).drop_last() =~= ts.take(n));
        lemma_find_extends(ts, n + 1, t);
    } else {
        assert(ts.take(n) =~= ts);
    }
}

} // verus!
