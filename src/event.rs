//! The event model: origins, metrics and the messages that carry them.
use crate::tags::{tag_map, TagMap, TagPair};
use std::sync::Arc;
use vstd::prelude::*;
use vstd::string::StringExecFns;

verus! {

/// A wall-clock instant: whole seconds since the Unix epoch and the
/// nanoseconds past that second.
#[derive(Clone, Copy, Debug, PartialEq, Eq, Structural)]
pub struct Timestamp {
    pub seconds: i64,
    pub nanos: u32,
}

/// Relies on chrono's `From<SystemTime> for DateTime<Utc>` applied to
/// `SystemTime::now()`, read through `DateTime::timestamp` and
/// `DateTime::timestamp_subsec_nanos`. The conversion handles a clock before
/// the epoch (negative seconds) and normalizes the nanoseconds below one
/// second; its one `unwrap` fails only for a clock outside chrono's range of
/// about 262,000 years around year 0.
#[verifier::external_body]
pub fn wall_clock_now() -> (r: Timestamp)
    ensures
        r.nanos < 1_000_000_000,
{
    let now = chrono::DateTime::<chrono::Utc>::from(std::time::SystemTime::now());
    Timestamp { seconds: now.timestamp(), nanos: now.timestamp_subsec_nanos() }
}

/// The lower-case hexadecimal digit of `n` (below 16).
pub open spec fn hex_digit(n: u128) -> char {
    if n < 10 {
        (48 + n) as char
    } else {
        (87 + n) as char
    }
}

/// The position among the 32 hex digits of the character at `i` of the
/// hyphenated form (hyphens stand at 8, 13, 18 and 23).
pub open spec fn digit_index(i: int) -> int {
    if i < 8 {
        i
    } else if i < 13 {
        i - 1
    } else if i < 18 {
        i - 2
    } else if i < 23 {
        i - 3
    } else {
        i - 4
    }
}

/// An identifier in uuid's hyphenated lower-case form: its 32 hex digits,
/// most significant first, with hyphens after the 8th, 12th, 16th and 20th.
pub open spec fn uuid_text(id: u128) -> Seq<char> {
    Seq::new(
        36,
        |i: int|
            if i == 8 || i == 13 || i == 18 || i == 23 {
                '-'
            } else {
                hex_digit((id >> ((4 * (31 - digit_index(i))) as u128)) & 0xf)
            },
    )
}

/// Relies on uuid::Uuid::new_v4, read back with `Uuid::as_u128`: a random
/// identifier whose version field is 4 and whose variant bits are `10`.
#[verifier::external_body]
fn fresh_id() -> (r: u128)
    ensures
        (r >> 76u128) & 0xfu128 == 4,
        (r >> 62u128) & 0x3u128 == 2,
{
    uuid::Uuid::new_v4().as_u128()
}

/// Relies on uuid's `Display` of `Uuid::from_u128(id)`, which writes the
/// hyphenated lower-case form (`LowerHex` through `Hyphenated`).
#[verifier::external_body]
fn id_text(id: u128) -> (r: String)
    ensures
        r@ == uuid_text(id),
        r@.len() == 36,
{
    uuid::Uuid::from_u128(id).to_string()
}

/// Which kind of participant an origin names.
#[derive(Clone, Copy, Debug, PartialEq, Eq, Structural)]
pub enum Role {
    Source,
    Sink,
}

pub open spec fn role_prefix(role: Role) -> Seq<char> {
    match role {
        Role::Source => "source-"@,
        Role::Sink => "sink-"@,
    }
}

/// The instance identifier `<role>-<name>:<id>`.
pub open spec fn instance_text(role: Role, name: Seq<char>, id: u128) -> Seq<char> {
    role_prefix(role) + name + ":"@ + uuid_text(id)
}

/// The identity of a pipeline participant.
#[derive(Debug)]
pub struct Origin {
    pub id: u128,
    pub name: String,
    pub instance_id: String,
}

impl Origin {
    /// Whether the instance identifier is the one derived from role, name and id.
    pub open spec fn derived_from(&self, role: Role) -> bool {
        self.instance_id@ == instance_text(role, self.name@, self.id)
    }

    /// An origin with the given identifier.
    pub fn with_id(role: Role, name: &str, id: u128) -> (r: Origin)
        ensures
            r.id == id,
            r.name@ == name@,
            r.derived_from(role),
    {
        let mut instance_id = match role {
            Role::Source => String::from_str("source-"),
            Role::Sink => String::from_str("sink-"),
        };
        instance_id.append(name);
        instance_id.append(":");
        let text = id_text(id);
        instance_id.append(text.as_str());
        Origin { id, name: String::from_str(name), instance_id }
    }

    /// A source origin with a fresh random identifier.
    pub fn new(name: &str) -> (r: Origin)
        ensures
            r.name@ == name@,
            r.derived_from(Role::Source),
    {
        Origin::with_id(Role::Source, name, fresh_id())
    }

    /// A sink origin with a fresh random identifier.
    pub fn new_sink(name: &str) -> (r: Origin)
        ensures
            r.name@ == name@,
            r.derived_from(Role::Sink),
    {
        Origin::with_id(Role::Sink, name, fresh_id())
    }

    pub fn instance_id(&self) -> (r: &str)
        ensures
            r@ == self.instance_id@,
    {
        self.instance_id.as_str()
    }
}

/// The kind of a measurement.
#[derive(Clone, Copy, Debug, PartialEq, Eq, Structural)]
pub enum MetricType {
    Counter,
    Gauge,
}

/// A metric as mathematical values.
pub struct MetricView {
    pub name: Seq<char>,
    pub value_bits: u64,
    pub metric_type: MetricType,
    pub category: Seq<char>,
    pub tags: Seq<TagPair>,
    pub timestamp: Timestamp,
}

/// A measurement. Its value is the bit pattern of an IEEE-754 binary64
/// number (`f64::to_bits`).
#[derive(Debug)]
pub struct Metric {
    pub name: String,
    pub value_bits: u64,
    pub metric_type: MetricType,
    pub category: String,
    pub tags: TagMap,
    pub timestamp: Timestamp,
}

impl View for Metric {
    type V = MetricView;

    open spec fn view(&self) -> MetricView {
        MetricView {
            name: self.name@,
            value_bits: self.value_bits,
            metric_type: self.metric_type,
            category: self.category@,
            tags: self.tags@,
            timestamp: self.timestamp,
        }
    }
}

/// Builds a `Metric` step by step.
pub struct MetricBuilder {
    metric: Metric,
}

impl View for MetricBuilder {
    type V = MetricView;

    closed spec fn view(&self) -> MetricView {
        self.metric@
    }
}

impl MetricBuilder {
    /// A metric of the given type and time, with no tags.
    pub fn at(
        metric_type: MetricType,
        category: &str,
        name: &str,
        value_bits: u64,
        timestamp: Timestamp,
    ) -> (r: MetricBuilder)
        ensures
            r@ == (MetricView {
                name: name@,
                value_bits,
                metric_type,
                category: category@,
                tags: Seq::empty(),
                timestamp,
            }),
    {
        MetricBuilder {
            metric: Metric {
                name: String::from_str(name),
                value_bits,
                metric_type,
                category: String::from_str(category),
                tags: TagMap::new(),
                timestamp,
            },
        }
    }

    /// A counter stamped with the current wall-clock time.
    pub fn counter(category: &str, name: &str, value_bits: u64) -> (r: MetricBuilder)
        ensures
            r@.name == name@,
            r@.category == category@,
            r@.value_bits == value_bits,
            r@.metric_type == MetricType::Counter,
            r@.tags.len() == 0,
            r@.timestamp.nanos < 1_000_000_000,
    {
        MetricBuilder::at(MetricType::Counter, category, name, value_bits, wall_clock_now())
    }

    /// A gauge stamped with the current wall-clock time.
    pub fn gauge(category: &str, name: &str, value_bits: u64) -> (r: MetricBuilder)
        ensures
            r@.name == name@,
            r@.category == category@,
            r@.value_bits == value_bits,
            r@.metric_type == MetricType::Gauge,
            r@.tags.len() == 0,
            r@.timestamp.nanos < 1_000_000_000,
    {
        MetricBuilder::at(MetricType::Gauge, category, name, value_bits, wall_clock_now())
    }

    /// Sets one tag, replacing an earlier value of the same key.
    pub fn add_tag(self, name: &str, value: &str) -> (r: MetricBuilder)
        ensures
            tag_map(r@.tags) == tag_map(self@.tags).insert(name@, value@),
            r@.name == self@.name,
            r@.value_bits == self@.value_bits,
            r@.metric_type == self@.metric_type,
            r@.category == self@.category,
            r@.timestamp == self@.timestamp,
    {
        let mut b = self;
        b.metric.tags.insert(String::from_str(name), String::from_str(value));
        b
    }

    /// Replaces all tags.
    pub fn tags(self, tags: TagMap) -> (r: MetricBuilder)
        ensures
            r@ == (MetricView { tags: tags@, ..self@ }),
    {
        let mut b = self;
        b.metric.tags = tags;
        b
    }

    pub fn build(self) -> (r: Metric)
        ensures
            r@ == self@,
    {
        self.metric
    }
}

/// A metric delivered to a sink together with the origin that emitted it.
#[derive(Clone)]
pub struct MetricEvent {
    pub origin: Arc<Origin>,
    pub metric: Arc<Metric>,
}

/// What a source hands to the engine.
#[derive(Debug)]
pub enum Event {
    Metric(Metric),
    Log(Log),
    Tick,
    Shutdown,
}

/// An event paired with its origin.
#[derive(Debug)]
pub struct EagleEvent {
    pub origin: Arc<Origin>,
    pub event: Event,
}

#[verifier::external_type_specification]
#[verifier::external_body]
pub struct ExJsonValue(serde_json::Value);

/// A structured record, carried through the pipeline as JSON values.
#[derive(Debug)]
pub struct Log {
    pub inner: Arc<serde_json::Value>,
    pub metadata: serde_json::Value,
}

/// The message form delivered to a sink's inbox.
pub enum EagleMsg<A> {
    Msg(A),
    Tick,
    Shutdown,
}

/// The outcome of reading an inbox.
pub enum Recv<A> {
    Available(EagleMsg<A>),
    Disconnected,
}

} // verus!
