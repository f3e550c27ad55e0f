//! The remote batching sink's logic: how a metric becomes a time series, how
//! series are buffered by key, when a batch is flushed and how a flush is
//! retried. The task that owns the connection performs the sends and sleeps.
use crate::event::{EagleMsg, Metric, MetricEvent, MetricType, MetricView, Timestamp};
use crate::tags::{tag_map, TagMap, TagPair};
use crate::text::same_text;
use crate::value::{truncate_to_i64, truncated};
use vstd::prelude::*;
use vstd::string::StringExecFns;

verus! {

/// Flush when this many distinct series are buffered.
pub const DEFAULT_BATCH_SIZE: usize = 200;

/// Least time between two flushes, in nanoseconds (ten seconds).
pub const DEFAULT_PERIOD_NANOS: u128 = 10_000_000_000;

/// Most send attempts per flush.
pub const DEFAULT_RETRIES: usize = 3;

/// The backend rejects start times older than 25 hours (in nanoseconds).
pub const START_WINDOW_NANOS: u128 = 90_000_000_000_000;

/// Pause before a retry, and between checks while waiting for the period.
pub const BACKOFF_MILLIS: u64 = 500;

/// A monitored resource as values.
pub struct ResourceView {
    pub resource_type: Seq<char>,
    pub labels: Seq<TagPair>,
}

/// A monitored resource: its type and labels.
#[derive(Debug)]
pub struct Resource {
    pub resource_type: String,
    pub labels: TagMap,
}

impl View for Resource {
    type V = ResourceView;

    open spec fn view(&self) -> ResourceView {
        ResourceView { resource_type: self.resource_type@, labels: self.labels@ }
    }
}

impl Resource {
    pub fn new(resource_type: &str) -> (r: Resource)
        ensures
            r@.resource_type == resource_type@,
            r@.labels.len() == 0,
    {
        Resource { resource_type: String::from_str(resource_type), labels: TagMap::new() }
    }

    /// Sets one label, replacing an earlier value of the same name.
    pub fn add_label(self, name: &str, value: &str) -> (r: Resource)
        ensures
            r@.resource_type == self@.resource_type,
            tag_map(r@.labels) == tag_map(self@.labels).insert(name@, value@),
    {
        let mut r = self;
        r.labels.insert(String::from_str(name), String::from_str(value));
        r
    }

    pub fn copied(&self) -> (r: Resource)
        ensures
            r@ == self@,
    {
        Resource { resource_type: self.resource_type.clone(), labels: self.labels.copied() }
    }
}

/// Category-to-resource pairs as values.
pub open spec fn mappings_view(v: Seq<(String, Resource)>) -> Seq<(Seq<char>, ResourceView)> {
    v.map_values(|e: (String, Resource)| (e.0@, e.1@))
}

/// The resource mapped to `category`; a later pair wins.
pub open spec fn find_resource(s: Seq<(Seq<char>, ResourceView)>, category: Seq<char>) -> Option<
    ResourceView,
>
    decreases s.len(),
{
    if s.len() == 0 {
        None
    } else if s.last().0 == category {
        Some(s.last().1)
    } else {
        find_resource(s.drop_last(), category)
    }
}

/// Options of the remote sink.
pub struct StackDriverMetricsOptions {
    pub project_id: String,
    pub credentials_path: Option<String>,
    pub batch_size: usize,
    pub period_nanos: u128,
    pub retries: usize,
    pub default_resource: Resource,
    pub resource_mappings: Vec<(String, Resource)>,
}

impl StackDriverMetricsOptions {
    /// The resource series of `category` are reported against.
    pub open spec fn resource_for(&self, category: Seq<char>) -> ResourceView {
        match find_resource(mappings_view(self.resource_mappings@), category) {
            Some(r) => r,
            None => self.default_resource@,
        }
    }

    /// Options with the defaults: batches of 200, a 10 s period, at most 3
    /// attempts per flush, ambient credentials, an empty default resource and no mappings.
    pub fn new(project_id: &str) -> (r: StackDriverMetricsOptions)
        ensures
            r.project_id@ == project_id@,
            r.credentials_path is None,
            r.batch_size == DEFAULT_BATCH_SIZE,
            r.period_nanos == DEFAULT_PERIOD_NANOS,
            r.retries == DEFAULT_RETRIES,
            r.default_resource@.resource_type.len() == 0,
            r.default_resource@.labels.len() == 0,
            r.resource_mappings@.len() == 0,
    {
        StackDriverMetricsOptions {
            project_id: String::from_str(project_id),
            credentials_path: None,
            batch_size: DEFAULT_BATCH_SIZE,
            period_nanos: DEFAULT_PERIOD_NANOS,
            retries: DEFAULT_RETRIES,
            default_resource: {
                proof {
                    reveal_strlit("");
                }
                Resource::new("")
            },
            resource_mappings: Vec::new(),
        }
    }

    pub fn credentials(self, path: &str) -> (r: StackDriverMetricsOptions)
        ensures
            r.credentials_path matches Some(p) && p@ == path@,
            r == (StackDriverMetricsOptions { credentials_path: r.credentials_path, ..self }),
    {
        StackDriverMetricsOptions { credentials_path: Some(String::from_str(path)), ..self }
    }

    pub fn credentials_options(self, credentials_path: Option<String>) -> (r:
        StackDriverMetricsOptions)
        ensures
            r == (StackDriverMetricsOptions { credentials_path, ..self }),
    {
        StackDriverMetricsOptions { credentials_path, ..self }
    }

    pub fn batch_size(self, batch_size: usize) -> (r: StackDriverMetricsOptions)
        ensures
            r == (StackDriverMetricsOptions { batch_size, ..self }),
    {
        StackDriverMetricsOptions { batch_size, ..self }
    }

    /// Sets the least time between flushes, in nanoseconds.
    pub fn period(self, period_nanos: u128) -> (r: StackDriverMetricsOptions)
        ensures
            r == (StackDriverMetricsOptions { period_nanos, ..self }),
    {
        StackDriverMetricsOptions { period_nanos, ..self }
    }

    pub fn retries(self, retries: usize) -> (r: StackDriverMetricsOptions)
        ensures
            r == (StackDriverMetricsOptions { retries, ..self }),
    {
        StackDriverMetricsOptions { retries, ..self }
    }

    pub fn default_resource(self, default_resource: Resource) -> (r: StackDriverMetricsOptions)
        ensures
            r == (StackDriverMetricsOptions { default_resource, ..self }),
    {
        StackDriverMetricsOptions { default_resource, ..self }
    }

    pub fn resource_mappings(self, resource_mappings: Vec<(String, Resource)>) -> (r:
        StackDriverMetricsOptions)
        ensures
            r == (StackDriverMetricsOptions { resource_mappings, ..self }),
    {
        StackDriverMetricsOptions { resource_mappings, ..self }
    }

    /// Maps a metric category to a resource, replacing an earlier mapping.
    pub fn map_resource_to(self, category: &str, resource: Resource) -> (r:
        StackDriverMetricsOptions)
        ensures
            forall|c: Seq<char>| #[trigger]
                r.resource_for(c) == (if c == category@ {
                    resource@
                } else {
                    self.resource_for(c)
                }),
            r.project_id == self.project_id,
            r.credentials_path == self.credentials_path,
            r.batch_size == self.batch_size,
            r.period_nanos == self.period_nanos,
            r.retries == self.retries,
            r.default_resource == self.default_resource,
    {
        let mut r = self;
        let ghost before = mappings_view(r.resource_mappings@);
        let ghost rv = resource@;
        r.resource_mappings.push((String::from_str(category), resource));
        proof {
            let after = mappings_view(r.resource_mappings@);
            assert(after.drop_last() =~= before);
            assert(after.last() == (category@, rv));
        }
        r
    }

    /// A copy of the resource for `category`.
    pub fn select_resource(&self, category: &str) -> (r: Resource)
        ensures
            r@ == self.resource_for(category@),
    {
        let ghost all = mappings_view(self.resource_mappings@);
        let mut i: usize = self.resource_mappings.len();
        assert(all.subrange(0, i as int) =~= all);
        while i > 0
            invariant
                i <= all.len(),
                all == mappings_view(self.resource_mappings@),
                find_resource(all, category@) == find_resource(all.subrange(0, i as int), category@),
            decreases i,
        {
            let entry = &self.resource_mappings[i - 1];
            proof {
                let pre = all.subrange(0, i as int);
                assert(pre.drop_last() =~= all.subrange(0, i - 1));
                assert(pre.last() == all[i - 1]);
            }
            if same_text(entry.0.as_str(), category) {
                return entry.1.copied();
            }
            i = i - 1;
        }
        self.default_resource.copied()
    }
}

/// How the backend aggregates a series.
#[derive(Clone, Copy, Debug, PartialEq, Eq, Structural)]
pub enum MetricKind {
    Gauge,
    Cumulative,
}

/// A time series as values.
pub struct SeriesView {
    pub metric_type: Seq<char>,
    pub labels: Seq<TagPair>,
    pub resource: ResourceView,
    pub metric_kind: MetricKind,
    pub start_time: Timestamp,
    pub end_time: Timestamp,
    pub value: i64,
    pub unit: Seq<char>,
}

/// One point of a series in the backend's terms, with 64-bit integer value.
#[derive(Debug)]
pub struct TimeSeries {
    pub metric_type: String,
    pub labels: TagMap,
    pub resource: Resource,
    pub metric_kind: MetricKind,
    pub start_time: Timestamp,
    pub end_time: Timestamp,
    pub value: i64,
    pub unit: String,
}

impl View for TimeSeries {
    type V = SeriesView;

    open spec fn view(&self) -> SeriesView {
        SeriesView {
            metric_type: self.metric_type@,
            labels: self.labels@,
            resource: self.resource@,
            metric_kind: self.metric_kind,
            start_time: self.start_time,
            end_time: self.end_time,
            value: self.value,
            unit: self.unit@,
        }
    }
}

pub open spec fn series_views(v: Seq<TimeSeries>) -> Seq<SeriesView> {
    v.map_values(|t: TimeSeries| t@)
}

/// `custom.googleapis.com/<category>/metrics/<name>`
pub open spec fn metric_type_of(category: Seq<char>, name: Seq<char>) -> Seq<char> {
    "custom.googleapis.com/"@ + category + "/metrics/"@ + name
}

/// The series a metric becomes, given the options and the start time of the
/// current window.
pub open spec fn series_of(options: StackDriverMetricsOptions, started: Timestamp, m: MetricView) -> SeriesView {
    SeriesView {
        metric_type: metric_type_of(m.category, m.name),
        labels: m.tags,
        resource: options.resource_for(m.category),
        metric_kind: match m.metric_type {
            MetricType::Gauge => MetricKind::Gauge,
            MetricType::Counter => MetricKind::Cumulative,
        },
        start_time: match m.metric_type {
            MetricType::Gauge => m.timestamp,
            MetricType::Counter => started,
        },
        end_time: m.timestamp,
        value: truncated(m.value_bits),
        unit: "INT64"@,
    }
}

/// No two series share a metric type.
pub open spec fn unique_types(s: Seq<SeriesView>) -> bool {
    forall|i: int, j: int|
        0 <= i < s.len() && 0 <= j < s.len() && i != j ==> #[trigger] s[i].metric_type != #[trigger] s[j].metric_type
}

pub open spec fn has_type(s: Seq<SeriesView>, metric_type: Seq<char>) -> bool {
    exists|i: int| 0 <= i < s.len() && s[i].metric_type == metric_type
}

/// The buffer after adding `t`: it replaces the series of the same metric
/// type, or is appended.
pub open spec fn upsert(s: Seq<SeriesView>, t: SeriesView) -> Seq<SeriesView> {
    if has_type(s, t.metric_type) {
        s.update(choose|i: int| 0 <= i < s.len() && s[i].metric_type == t.metric_type, t)
    } else {
        s.push(t)
    }
}

pub proof fn lemma_upsert_unique(s: Seq<SeriesView>, t: SeriesView)
    requires
        unique_types(s),
    ensures
        unique_types(upsert(s, t)),
        has_type(upsert(s, t), t.metric_type),
{
    if has_type(s, t.metric_type) {
        let i = choose|i: int| 0 <= i < s.len() && s[i].metric_type == t.metric_type;
        assert(upsert(s, t)[i] == t);
    } else {
        let u = s.push(t);
        assert(u[s.len() as int] == t);
        assert forall|i: int, j: int|
            0 <= i < u.len() && 0 <= j < u.len() && i != j implies #[trigger] u[i].metric_type != #[trigger] u[j].metric_type by {
            if i < s.len() && j < s.len() {
                assert(u[i] == s[i] && u[j] == s[j]);
            } else if i < s.len() {
                assert(u[i] == s[i]);
            } else {
                assert(u[j] == s[j]);
            }
        }
    }
}

/// Within one flush window only the later of two samples with the same
/// category and name stays: adding two series of one metric type leaves the
/// buffer as if only the later had been added.
pub proof fn lemma_later_sample_wins(s: Seq<SeriesView>, first: SeriesView, second: SeriesView)
    requires
        unique_types(s),
        first.metric_type == second.metric_type,
    ensures
        upsert(upsert(s, first), second) == upsert(s, second),
{
    lemma_upsert_unique(s, first);
    let s1 = upsert(s, first);
    if has_type(s, first.metric_type) {
        let i = choose|i: int| 0 <= i < s.len() && s[i].metric_type == first.metric_type;
        let j = choose|j: int| 0 <= j < s1.len() && s1[j].metric_type == second.metric_type;
        assert(s1[i].metric_type == second.metric_type);
        assert(i == j);
        assert(upsert(s1, second) =~= upsert(s, second));
    } else {
        let n = s.len() as int;
        assert(s1[n].metric_type == second.metric_type);
        let j = choose|j: int| 0 <= j < s1.len() && s1[j].metric_type == second.metric_type;
        if j < n {
            assert(s1[j] == s[j]);
        }
        assert(j == n);
        assert(upsert(s1, second) =~= s.push(second));
    }
}

fn upsert_series(buffer: &mut Vec<TimeSeries>, series: TimeSeries)
    requires
        unique_types(series_views(old(buffer)@)),
    ensures
        series_views(final(buffer)@) == upsert(series_views(old(buffer)@), series@),
        unique_types(series_views(final(buffer)@)),
{
    let ghost before = series_views(buffer@);
    let ghost t = series@;
    proof {
        lemma_upsert_unique(before, t);
    }
    let n = buffer.len();
    let mut i: usize = 0;
    while i < n
        invariant
            n == buffer@.len(),
            before == series_views(buffer@),
            before == series_views(old(buffer)@),
            unique_types(before),
            t == series@,
            i <= n,
            forall|j: int| 0 <= j < i ==> (#[trigger] before[j]).metric_type != t.metric_type,
        decreases n - i,
    {
        if same_text(buffer[i].metric_type.as_str(), series.metric_type.as_str()) {
            buffer.set(i, series);
            proof {
                assert(before[i as int].metric_type == t.metric_type);
                assert(has_type(before, t.metric_type));
                let c = choose|c: int| 0 <= c < before.len() && before[c].metric_type == t.metric_type;
                assert(c == i);
                assert(series_views(buffer@) =~= before.update(i as int, t));
            }
            return;
        }
        i = i + 1;
    }
    buffer.push(series);
    proof {
        assert(!has_type(before, t.metric_type));
        assert(series_views(buffer@) =~= before.push(t));
    }
}

/// The start of the current cumulative window: a wall-clock time and the
/// monotonic reading taken with it.
#[derive(Clone, Copy, Debug, PartialEq, Eq, Structural)]
pub struct StartTime {
    pub time: Timestamp,
    pub at: u128,
}

/// What the sink's task does after a message.
pub enum SinkAction {
    /// Read the next message.
    Continue,
    /// Leave the loop; the pending buffer is dropped.
    Stop,
    /// Send this batch now.
    Send(Vec<TimeSeries>),
    /// The buffer is full: wait, polling `ready_batch`, until the period has
    /// passed since the last flush.
    Wait,
}

/// The sink's state as values.
pub struct SinkModel {
    pub buffer: Seq<SeriesView>,
    pub waiting: bool,
    pub clock: u128,
    pub started: StartTime,
}

/// What happens to the sink, with the monotonic time it happens at: an inbox
/// message, a check of a full buffer (`ready_batch`), or the end of a flush
/// (`finish_flush`).
pub enum SinkInput {
    Msg { metric: MetricView, now: u128, wall: Timestamp },
    Tick { now: u128 },
    Shutdown,
    Poll { now: u128 },
    Flushed { now: u128 },
}

/// One step of the sink: the next state, and the batch sent, if any. An
/// inbox message while waiting on a full buffer is never handed over.
pub open spec fn sink_next(o: StackDriverMetricsOptions, s: SinkModel, input: SinkInput) -> (
    SinkModel,
    Option<Seq<SeriesView>>,
) {
    match input {
        SinkInput::Msg { metric, now, wall } => if s.waiting {
            (s, None)
        } else {
            let started = if now - s.started.at >= START_WINDOW_NANOS {
                StartTime { time: wall, at: now }
            } else {
                s.started
            };
            let added = upsert(s.buffer, series_of(o, started.time, metric));
            if added.len() == o.batch_size {
                if now - s.clock >= o.period_nanos {
                    (SinkModel { buffer: Seq::empty(), started, ..s }, Some(added))
                } else {
                    (SinkModel { buffer: added, waiting: true, started, ..s }, None)
                }
            } else {
                (SinkModel { buffer: added, started, ..s }, None)
            }
        },
        SinkInput::Tick { now } => if !s.waiting && s.buffer.len() > 0 && now - s.clock
            >= o.period_nanos {
            (SinkModel { buffer: Seq::empty(), ..s }, Some(s.buffer))
        } else {
            (s, None)
        },
        SinkInput::Shutdown => (s, None),
        SinkInput::Poll { now } => if s.waiting && now - s.clock >= o.period_nanos {
            (SinkModel { buffer: Seq::empty(), waiting: false, ..s }, Some(s.buffer))
        } else {
            (s, None)
        },
        SinkInput::Flushed { now } => (SinkModel { clock: now, ..s }, None),
    }
}

/// The state before input `k` of a run.
pub open spec fn sink_state_at(
    o: StackDriverMetricsOptions,
    s: SinkModel,
    inputs: Seq<SinkInput>,
    k: int,
) -> SinkModel
    decreases k,
{
    if k <= 0 {
        s
    } else {
        sink_next(o, sink_state_at(o, s, inputs, k - 1), inputs[k - 1]).0
    }
}

/// The batch sent at input `k` of a run, if any.
pub open spec fn sink_sent_at(
    o: StackDriverMetricsOptions,
    s: SinkModel,
    inputs: Seq<SinkInput>,
    k: int,
) -> Option<Seq<SeriesView>> {
    sink_next(o, sink_state_at(o, s, inputs, k), inputs[k]).1
}

/// The buffer holds fewer series than a batch, or exactly a batch while
/// waiting for the period.
pub open spec fn model_bounded(o: StackDriverMetricsOptions, s: SinkModel) -> bool {
    &&& (s.waiting ==> s.buffer.len() == o.batch_size)
    &&& (!s.waiting ==> s.buffer.len() < o.batch_size)
}

pub open spec fn input_time(input: SinkInput) -> u128 {
    match input {
        SinkInput::Msg { now, .. } => now,
        SinkInput::Tick { now } => now,
        SinkInput::Shutdown => 0,
        SinkInput::Poll { now } => now,
        SinkInput::Flushed { now } => now,
    }
}

proof fn lemma_upsert_len(s: Seq<SeriesView>, t: SeriesView)
    ensures
        upsert(s, t).len() == s.len() || upsert(s, t).len() == s.len() + 1,
{
}

proof fn lemma_step_bounded(o: StackDriverMetricsOptions, s: SinkModel, input: SinkInput)
    requires
        o.batch_size >= 1,
        model_bounded(o, s),
    ensures
        model_bounded(o, sink_next(o, s, input).0),
        sink_next(o, s, input).1 matches Some(b) ==> 1 <= b.len() <= o.batch_size,
{
    if let SinkInput::Msg { metric, now, wall } = input {
        if !s.waiting {
            let started = if now - s.started.at >= START_WINDOW_NANOS {
                StartTime { time: wall, at: now }
            } else {
                s.started
            };
            lemma_upsert_len(s.buffer, series_of(o, started.time, metric));
        }
    }
}

proof fn lemma_bounded_at(o: StackDriverMetricsOptions, s: SinkModel, inputs: Seq<SinkInput>, k: int)
    requires
        o.batch_size >= 1,
        model_bounded(o, s),
        0 <= k <= inputs.len(),
    ensures
        model_bounded(o, sink_state_at(o, s, inputs, k)),
    decreases k,
{
    if k > 0 {
        lemma_bounded_at(o, s, inputs, k - 1);
        lemma_step_bounded(o, sink_state_at(o, s, inputs, k - 1), inputs[k - 1]);
    }
}

/// Over any run from a bounded state (a fresh sink is one) with batches of
/// at least one: between flushes the buffer never holds more than a batch,
/// every batch sent holds between one series and a batch, and a flush
/// leaves the buffer empty.
pub proof fn lemma_buffer_bound_over_run(
    o: StackDriverMetricsOptions,
    s: SinkModel,
    inputs: Seq<SinkInput>,
)
    requires
        o.batch_size >= 1,
        model_bounded(o, s),
    ensures
        forall|k: int|
            0 <= k <= inputs.len() ==> (#[trigger] sink_state_at(o, s, inputs, k)).buffer.len()
                <= o.batch_size,
        forall|k: int|
            0 <= k < inputs.len() ==> (#[trigger] sink_sent_at(o, s, inputs, k) matches Some(b)
                ==> 1 <= b.len() <= o.batch_size && sink_state_at(o, s, inputs, k + 1).buffer.len()
                == 0),
{
    assert forall|k: int| 0 <= k <= inputs.len() implies (#[trigger] sink_state_at(
        o,
        s,
        inputs,
        k,
    )).buffer.len() <= o.batch_size by {
        lemma_bounded_at(o, s, inputs, k);
    }
    assert forall|k: int| 0 <= k < inputs.len() implies (#[trigger] sink_sent_at(
        o,
        s,
        inputs,
        k,
    ) matches Some(b) ==> 1 <= b.len() <= o.batch_size && sink_state_at(o, s, inputs, k + 1).buffer.len()
        == 0) by {
        lemma_bounded_at(o, s, inputs, k);
        lemma_step_bounded(o, sink_state_at(o, s, inputs, k), inputs[k]);
    }
}

/// Over any run: no batch is sent before the period has passed since the
/// clock (the end of the last flush, or the start), and when each flush
/// ends at a time not before the clock, the clock never moves back.
pub proof fn lemma_flush_timing_over_run(
    o: StackDriverMetricsOptions,
    s: SinkModel,
    inputs: Seq<SinkInput>,
)
    ensures
        forall|k: int|
            0 <= k < inputs.len() ==> (#[trigger] sink_sent_at(o, s, inputs, k) is Some ==> input_time(
                inputs[k],
            ) - sink_state_at(o, s, inputs, k).clock >= o.period_nanos),
        (forall|k: int|
            0 <= k < inputs.len() && #[trigger] inputs[k] is Flushed ==> input_time(inputs[k])
                >= sink_state_at(o, s, inputs, k).clock) ==> forall|k: int|
            0 <= k < inputs.len() ==> (#[trigger] sink_state_at(o, s, inputs, k)).clock
                <= sink_state_at(o, s, inputs, k + 1).clock,
{
    assert forall|k: int| 0 <= k < inputs.len() implies (#[trigger] sink_sent_at(o, s, inputs, k) is Some
        ==> input_time(inputs[k]) - sink_state_at(o, s, inputs, k).clock >= o.period_nanos) by {
    }
    if forall|k: int|
        0 <= k < inputs.len() && #[trigger] inputs[k] is Flushed ==> input_time(inputs[k])
            >= sink_state_at(o, s, inputs, k).clock {
        assert forall|k: int| 0 <= k < inputs.len() implies (#[trigger] sink_state_at(
            o,
            s,
            inputs,
            k,
        )).clock <= sink_state_at(o, s, inputs, k + 1).clock by {
            assert(sink_state_at(o, s, inputs, k + 1) == sink_next(o, sink_state_at(o, s, inputs, k), inputs[k]).0);
        }
    }
}

/// State of the remote sink between messages.
pub struct StackDriverState {
    pub options: StackDriverMetricsOptions,
    pub buffer: Vec<TimeSeries>,
    pub waiting: bool,
    /// Monotonic reading, in nanoseconds, at the end of the last flush.
    pub clock: u128,
    pub started: StartTime,
    pub successes: u64,
    pub failures: u64,
}

/// After a metric is handled, the series of its type that the sink holds,
/// in its buffer or in the batch just sent, is exactly one: the one built
/// from that metric. An earlier sample of the same category and name in the
/// same flush window is gone.
pub proof fn lemma_latest_sample_kept(
    o: StackDriverMetricsOptions,
    s: SinkModel,
    metric: MetricView,
    now: u128,
    wall: Timestamp,
)
    requires
        unique_types(s.buffer),
        !s.waiting,
    ensures
        ({
            let (next, sent) = sink_next(o, s, SinkInput::Msg { metric, now, wall });
            let held = match sent {
                Some(b) => b,
                None => next.buffer,
            };
            let t = series_of(o, next.started.time, metric);
            &&& has_type(held, t.metric_type)
            &&& forall|i: int|
                0 <= i < held.len() && (#[trigger] held[i]).metric_type == t.metric_type ==> held[i]
                    == t
        }),
{
    let started = if now - s.started.at >= START_WINDOW_NANOS {
        StartTime { time: wall, at: now }
    } else {
        s.started
    };
    let t = series_of(o, started.time, metric);
    lemma_upsert_unique(s.buffer, t);
    let added = upsert(s.buffer, t);
    assert forall|i: int| 0 <= i < added.len() && (#[trigger] added[i]).metric_type == t.metric_type implies added[i] == t by {
        if has_type(s.buffer, t.metric_type) {
            let c = choose|c: int| 0 <= c < s.buffer.len() && s.buffer[c].metric_type == t.metric_type;
            assert(added[c] == t);
            assert(i == c);
        } else {
            assert(added[s.buffer.len() as int] == t);
            assert(i == s.buffer.len());
        }
    }
}

/// The input an inbox message is at times `now` and `wall`.
pub open spec fn input_of(msg: EagleMsg<MetricEvent>, now: u128, wall: Timestamp) -> SinkInput {
    match msg {
        EagleMsg::Msg(event) => SinkInput::Msg { metric: (*event.metric)@, now, wall },
        EagleMsg::Tick => SinkInput::Tick { now },
        EagleMsg::Shutdown => SinkInput::Shutdown,
    }
}

/// The batch an action sends, if any.
pub open spec fn sent_by(r: SinkAction) -> Option<Seq<SeriesView>> {
    match r {
        SinkAction::Send(batch) => Some(series_views(batch@)),
        _ => None,
    }
}

impl StackDriverState {
    pub open spec fn model(&self) -> SinkModel {
        SinkModel {
            buffer: series_views(self.buffer@),
            waiting: self.waiting,
            clock: self.clock,
            started: self.started,
        }
    }

    /// Keys in the buffer are distinct; a full buffer is what waiting means.
    pub open spec fn wf(&self) -> bool {
        &&& unique_types(series_views(self.buffer@))
        &&& (self.waiting ==> self.buffer@.len() == self.options.batch_size)
    }

    /// Between flushes the buffer holds fewer series than a batch, or exactly
    /// a batch while waiting for the period.
    pub open spec fn bounded(&self) -> bool {
        self.buffer@.len() <= self.options.batch_size
            && (!self.waiting ==> self.buffer@.len() < self.options.batch_size)
    }

    /// Whether the period has passed since the last flush.
    pub open spec fn period_elapsed(&self, now: u128) -> bool {
        now - self.clock >= self.options.period_nanos
    }

    /// A fresh state at monotonic time `now` and wall-clock time `wall`.
    pub fn new(options: StackDriverMetricsOptions, now: u128, wall: Timestamp) -> (r: StackDriverState)
        ensures
            r.wf(),
            r.options == options,
            r.buffer@.len() == 0,
            !r.waiting,
            r.clock == now,
            r.started == (StartTime { time: wall, at: now }),
            r.successes == 0,
            r.failures == 0,
            options.batch_size >= 1 ==> r.bounded(),
    {
        let r = StackDriverState {
            options,
            buffer: Vec::new(),
            waiting: false,
            clock: now,
            started: StartTime { time: wall, at: now },
            successes: 0,
            failures: 0,
        };
        assert(series_views(r.buffer@) =~= Seq::<SeriesView>::empty());
        r
    }

    /// `projects/<project_id>`
    pub fn project_name(&self) -> (r: String)
        ensures
            r@ == "projects/"@ + self.options.project_id@,
    {
        let mut r = String::from_str("projects/");
        r.append(self.options.project_id.as_str());
        r
    }

    /// The series a metric becomes now.
    pub fn to_series(&self, metric: &Metric) -> (r: TimeSeries)
        ensures
            r@ == series_of(self.options, self.started.time, metric@),
    {
        let mut metric_type = String::from_str("custom.googleapis.com/");
        metric_type.append(metric.category.as_str());
        metric_type.append("/metrics/");
        metric_type.append(metric.name.as_str());
        let resource = self.options.select_resource(metric.category.as_str());
        let (metric_kind, start_time) = match metric.metric_type {
            MetricType::Gauge => (MetricKind::Gauge, metric.timestamp),
            MetricType::Counter => (MetricKind::Cumulative, self.started.time),
        };
        TimeSeries {
            metric_type,
            labels: metric.tags.copied(),
            resource,
            metric_kind,
            start_time,
            end_time: metric.timestamp,
            value: truncate_to_i64(metric.value_bits),
            unit: String::from_str("INT64"),
        }
    }

    fn insert_series(&mut self, series: TimeSeries)
        requires
            unique_types(series_views(old(self).buffer@)),
        ensures
            series_views(final(self).buffer@) == upsert(series_views(old(self).buffer@), series@),
            unique_types(series_views(final(self).buffer@)),
            final(self).options == old(self).options,
            final(self).waiting == old(self).waiting,
            final(self).clock == old(self).clock,
            final(self).started == old(self).started,
            final(self).successes == old(self).successes,
            final(self).failures == old(self).failures,
    {
        upsert_series(&mut self.buffer, series);
    }

    fn take_buffer(&mut self) -> (r: Vec<TimeSeries>)
        ensures
            r@ == old(self).buffer@,
            final(self).buffer@.len() == 0,
            final(self).options == old(self).options,
            final(self).waiting == old(self).waiting,
            final(self).clock == old(self).clock,
            final(self).started == old(self).started,
            final(self).successes == old(self).successes,
            final(self).failures == old(self).failures,
    {
        let mut r: Vec<TimeSeries> = Vec::new();
        core::mem::swap(&mut self.buffer, &mut r);
        r
    }

    /// Handles one inbox message at monotonic time `now` (nanoseconds) and
    /// wall-clock time `wall`.
    pub fn step(&mut self, msg: EagleMsg<MetricEvent>, now: u128, wall: Timestamp) -> (r: SinkAction)
        requires
            old(self).wf(),
            !old(self).waiting,
            old(self).clock <= now,
            old(self).started.at <= now,
        ensures
            final(self).wf(),
            final(self).options == old(self).options,
            final(self).clock == old(self).clock,
            final(self).successes == old(self).successes,
            final(self).failures == old(self).failures,
            final(self).started.at <= now,
            (final(self).model(), sent_by(r)) == sink_next(
                old(self).options,
                old(self).model(),
                input_of(msg, now, wall),
            ),
            // a sent batch is the whole buffer, which is left empty
            r matches SinkAction::Send(batch) ==> final(self).buffer@.len() == 0,
            // nothing is sent before the period has passed
            r is Send ==> old(self).period_elapsed(now),
            old(self).options.batch_size >= 1 && old(self).bounded() ==> final(self).bounded(),
            match msg {
                EagleMsg::Shutdown => r is Stop && final(self).buffer@ == old(self).buffer@
                    && !final(self).waiting,
                EagleMsg::Tick => if old(self).buffer@.len() > 0 && old(self).period_elapsed(now) {
                    r matches SinkAction::Send(batch) && batch@ == old(self).buffer@
                        && !final(self).waiting
                } else {
                    r is Continue && final(self).buffer@ == old(self).buffer@ && !final(self).waiting
                },
                EagleMsg::Msg(event) => {
                    let started = if now - old(self).started.at >= START_WINDOW_NANOS {
                        StartTime { time: wall, at: now }
                    } else {
                        old(self).started
                    };
                    let added = upsert(
                        series_views(old(self).buffer@),
                        series_of(old(self).options, started.time, (*event.metric)@),
                    );
                    &&& final(self).started == started
                    &&& if added.len() == old(self).options.batch_size {
                        if old(self).period_elapsed(now) {
                            r matches SinkAction::Send(batch) && series_views(batch@) == added
                                && !final(self).waiting
                        } else {
                            r is Wait && final(self).waiting && series_views(final(self).buffer@) == added
                        }
                    } else {
                        r is Continue && !final(self).waiting && series_views(final(self).buffer@) == added
                    }
                },
            },
    {
        match msg {
            EagleMsg::Shutdown => SinkAction::Stop,
            EagleMsg::Tick => {
                if self.buffer.len() > 0 && now - self.clock >= self.options.period_nanos {
                    let batch = self.take_buffer();
                    assert(series_views(self.buffer@) =~= Seq::<SeriesView>::empty());
                    SinkAction::Send(batch)
                } else {
                    SinkAction::Continue
                }
            },
            EagleMsg::Msg(event) => {
                if now - self.started.at >= START_WINDOW_NANOS {
                    self.started = StartTime { time: wall, at: now };
                }
                let series = self.to_series(&event.metric);
                self.insert_series(series);
                if self.buffer.len() == self.options.batch_size {
                    if now - self.clock >= self.options.period_nanos {
                        let batch = self.take_buffer();
                        assert(series_views(self.buffer@) =~= Seq::<SeriesView>::empty());
                        SinkAction::Send(batch)
                    } else {
                        self.waiting = true;
                        SinkAction::Wait
                    }
                } else {
                    SinkAction::Continue
                }
            },
        }
    }

    /// While waiting on a full buffer: the batch once the period has passed
    /// since the last flush, else `None`.
    pub fn ready_batch(&mut self, now: u128) -> (r: Option<Vec<TimeSeries>>)
        requires
            old(self).wf(),
            old(self).clock <= now,
        ensures
            final(self).wf(),
            final(self).options == old(self).options,
            final(self).clock == old(self).clock,
            final(self).started == old(self).started,
            final(self).successes == old(self).successes,
            final(self).failures == old(self).failures,
            old(self).options.batch_size >= 1 && old(self).bounded() ==> final(self).bounded(),
            final(self).model() == sink_next(old(self).options, old(self).model(), SinkInput::Poll { now }).0,
            match r {
                Some(b) => sink_next(old(self).options, old(self).model(), SinkInput::Poll { now }).1
                    == Some(series_views(b@)),
                None => sink_next(old(self).options, old(self).model(), SinkInput::Poll { now }).1
                    is None,
            },
            if old(self).waiting && old(self).period_elapsed(now) {
                r matches Some(batch) && batch@ == old(self).buffer@ && final(self).buffer@.len() == 0
                    && !final(self).waiting
            } else {
                r is None && final(self).buffer@ == old(self).buffer@ && final(self).waiting == old(
                    self,
                ).waiting
            },
    {
        if self.waiting && now - self.clock >= self.options.period_nanos {
            let batch = self.take_buffer();
            self.waiting = false;
            assert(series_views(self.buffer@) =~= Seq::<SeriesView>::empty());
            Some(batch)
        } else {
            None
        }
    }

    /// Records the end of a flush at monotonic time `now`: the clock moves
    /// forward to `now` and the outcome is counted.
    pub fn finish_flush(&mut self, now: u128, outcome: FlushOutcome)
        requires
            old(self).clock <= now,
        ensures
            final(self).clock == now,
            old(self).clock <= final(self).clock,
            final(self).model() == sink_next(old(self).options, old(self).model(), SinkInput::Flushed { now }).0,
            final(self).options == old(self).options,
            final(self).buffer@ == old(self).buffer@,
            final(self).waiting == old(self).waiting,
            final(self).started == old(self).started,
            final(self).successes == (if outcome == FlushOutcome::Succeeded && old(self).successes < u64::MAX {
                (old(self).successes + 1) as u64
            } else {
                old(self).successes
            }),
            final(self).failures == (if outcome == FlushOutcome::Failed && old(self).failures < u64::MAX {
                (old(self).failures + 1) as u64
            } else {
                old(self).failures
            }),
    {
        match outcome {
            FlushOutcome::Succeeded => {
                if self.successes < u64::MAX {
                    self.successes = self.successes + 1;
                }
            },
            FlushOutcome::Failed => {
                if self.failures < u64::MAX {
                    self.failures = self.failures + 1;
                }
            },
            FlushOutcome::GaveUp => {},
        }
        self.clock = now;
    }
}

/// Status codes of the backend's RPC replies.
#[derive(Clone, Copy, Debug, PartialEq, Eq, Structural)]
pub enum StatusCode {
    /// The call completed (gRPC `OK`).
    Success,
    Cancelled,
    Unknown,
    InvalidArgument,
    DeadlineExceeded,
    NotFound,
    AlreadyExists,
    PermissionDenied,
    ResourceExhausted,
    FailedPrecondition,
    Aborted,
    OutOfRange,
    Unimplemented,
    Internal,
    Unavailable,
    DataLoss,
    Unauthenticated,
}

/// Only `Internal` and `Unknown` are worth another attempt.
pub fn is_transient(code: StatusCode) -> (r: bool)
    ensures
        r == (code == StatusCode::Internal || code == StatusCode::Unknown),
{
    match code {
        StatusCode::Internal | StatusCode::Unknown => true,
        _ => false,
    }
}

/// How a flush ended.
#[derive(Clone, Copy, Debug, PartialEq, Eq, Structural)]
pub enum FlushOutcome {
    /// The backend accepted the batch.
    Succeeded,
    /// The backend rejected it with a status that is not retried.
    Failed,
    /// Transient failures used up the attempts, or none was allowed.
    GaveUp,
}

/// What to do after one send attempt.
#[derive(Clone, Copy, Debug, PartialEq, Eq, Structural)]
pub enum AttemptStep {
    Done(FlushOutcome),
    /// Sleep the back-off, then try again if `may_send` still holds.
    Retry,
}

/// Attempt bookkeeping of one flush: how many sends were made, and the
/// most that are allowed.
#[derive(Clone, Copy, Debug, PartialEq, Eq, Structural)]
pub struct FlushAttempts {
    pub made: usize,
    pub retries: usize,
}

impl FlushAttempts {
    pub fn new(retries: usize) -> (r: FlushAttempts)
        ensures
            r == (FlushAttempts { made: 0, retries }),
    {
        FlushAttempts { made: 0, retries }
    }

    /// Whether another attempt is allowed.
    pub fn may_send(&self) -> (r: bool)
        ensures
            r == (self.made < self.retries),
    {
        self.made < self.retries
    }

    /// Records the reply to an attempt: success or a non-transient status end
    /// the flush, a transient one asks for a retry.
    pub fn record(&mut self, reply: Result<(), StatusCode>) -> (r: AttemptStep)
        requires
            old(self).made < old(self).retries,
        ensures
            final(self).retries == old(self).retries,
            final(self).made == old(self).made + 1,
            r == match reply {
                Ok(()) => AttemptStep::Done(FlushOutcome::Succeeded),
                Err(code) => if code == StatusCode::Internal || code == StatusCode::Unknown {
                    AttemptStep::Retry
                } else {
                    AttemptStep::Done(FlushOutcome::Failed)
                },
            },
    {
        self.made = self.made + 1;
        match reply {
            Ok(()) => AttemptStep::Done(FlushOutcome::Succeeded),
            Err(code) => {
                if is_transient(code) {
                    AttemptStep::Retry
                } else {
                    AttemptStep::Done(FlushOutcome::Failed)
                }
            },
        }
    }
}

} // verus!
