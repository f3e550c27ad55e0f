//! Host sources: the devices a disk source reports on, and the load and
//! memory pollers.
use crate::event::{Metric, MetricBuilder, MetricType, MetricView, Timestamp};
use crate::tags::{tag_map, TagPair};
use crate::text::same_text;
use vstd::prelude::*;

verus! {

/// Cadence of the host pollers, in seconds.
pub const POLL_SECS: u64 = 3;

/// Reports I/O counters of the named block devices.
pub struct Disks {
    pub disks: Vec<String>,
}

impl Disks {
    pub fn new(disks: Vec<String>) -> (r: Disks)
        ensures
            r.disks == disks,
    {
        Disks { disks }
    }

    /// Whether `device` is one of the devices to report on.
    pub fn watches(&self, device: &str) -> (r: bool)
        ensures
            r == exists|i: int| 0 <= i < self.disks@.len() && #[trigger] self.disks@[i]@ == device@,
    {
        let n = self.disks.len();
        let mut i: usize = 0;
        while i < n
            invariant
                n == self.disks@.len(),
                i <= n,
                forall|j: int| 0 <= j < i ==> #[trigger] self.disks@[j]@ != device@,
            decreases n - i,
        {
            if same_text(self.disks[i].as_str(), device) {
                return true;
            }
            i = i + 1;
        }
        false
    }
}

/// A `host` gauge without tags.
pub open spec fn host_gauge(name: Seq<char>, value_bits: u64, at: Timestamp) -> MetricView {
    MetricView {
        name,
        value_bits,
        metric_type: MetricType::Gauge,
        category: "host"@,
        tags: Seq::<TagPair>::empty(),
        timestamp: at,
    }
}

fn gauge(name: &str, value_bits: u64, at: Timestamp) -> (r: Metric)
    ensures
        r@ == host_gauge(name@, value_bits, at),
{
    let r = MetricBuilder::at(MetricType::Gauge, "host", name, value_bits, at).build();
    proof {
        reveal_strlit("host");
    }
    r
}

impl Disks {
    /// The four counters of one device, each tagged with `device_name`.
    pub fn device_metrics(
        device: &str,
        read_bytes: u64,
        reads: u64,
        written_bytes: u64,
        writes: u64,
        at: Timestamp,
    ) -> (r: Vec<Metric>)
        ensures
            r@.len() == 4,
            forall|i: int| 0 <= i < 4 ==> tag_map(#[trigger] r@[i]@.tags) == map![
                "device_name"@ => device@,
            ],
            r@[0]@.name == "disk_read_bytes_total"@ && r@[0]@.value_bits == read_bytes,
            r@[1]@.name == "disk_reads_completed_total"@ && r@[1]@.value_bits == reads,
            r@[2]@.name == "disk_written_bytes_total"@ && r@[2]@.value_bits == written_bytes,
            r@[3]@.name == "disk_written_completed_total"@ && r@[3]@.value_bits == writes,
            forall|i: int|
                0 <= i < 4 ==> (#[trigger] r@[i]@).category == "host"@ && r@[i]@.metric_type
                    == MetricType::Gauge && r@[i]@.timestamp == at,
    {
        let mut out: Vec<Metric> = Vec::new();
        let mut m = MetricBuilder::at(MetricType::Gauge, "host", "disk_read_bytes_total", read_bytes, at)
            .add_tag("device_name", device).build();
        out.push(m);
        m = MetricBuilder::at(MetricType::Gauge, "host", "disk_reads_completed_total", reads, at)
            .add_tag("device_name", device).build();
        out.push(m);
        m = MetricBuilder::at(MetricType::Gauge, "host", "disk_written_bytes_total", written_bytes, at)
            .add_tag("device_name", device).build();
        out.push(m);
        m = MetricBuilder::at(MetricType::Gauge, "host", "disk_written_completed_total", writes, at)
            .add_tag("device_name", device).build();
        out.push(m);
        proof {
            reveal_strlit("host");
            assert(tag_map(Seq::<TagPair>::empty()) =~= Map::<Seq<char>, Seq<char>>::empty());
            assert(Map::<Seq<char>, Seq<char>>::empty().insert("device_name"@, device@) =~= map![
                "device_name"@ => device@,
            ]);
        }
        out
    }
}

/// Reports the load averages.
pub struct Load;

impl Load {
    /// The one-, five- and fifteen-minute load averages as `host` gauges.
    pub fn metrics(one: u64, five: u64, fifteen: u64, at: Timestamp) -> (r: Vec<Metric>)
        ensures
            r@.len() == 3,
            r@[0]@ == host_gauge("load1"@, one, at),
            r@[1]@ == host_gauge("load5"@, five, at),
            r@[2]@ == host_gauge("load15"@, fifteen, at),
    {
        let mut out: Vec<Metric> = Vec::new();
        out.push(gauge("load1", one, at));
        out.push(gauge("load5", five, at));
        out.push(gauge("load15", fifteen, at));
        out
    }
}

/// Reports memory figures.
pub struct Memory;

impl Memory {
    /// Total, free, available and used memory, in bytes, as `host` gauges.
    pub fn metrics(total: u64, free: u64, available: u64, used: u64, at: Timestamp) -> (r: Vec<
        Metric,
    >)
        ensures
            r@.len() == 4,
            r@[0]@ == host_gauge("memory_total_bytes"@, total, at),
            r@[1]@ == host_gauge("memory_free_bytes"@, free, at),
            r@[2]@ == host_gauge("memory_available_bytes"@, available, at),
            r@[3]@ == host_gauge("memory_used_bytes"@, used, at),
    {
        let mut out: Vec<Metric> = Vec::new();
        out.push(gauge("memory_total_bytes", total, at));
        out.push(gauge("memory_free_bytes", free, at));
        out.push(gauge("memory_available_bytes", available, at));
        out.push(gauge("memory_used_bytes", used, at));
        out
    }
}

/// How a tailed file's lines are read.
#[derive(Clone, Copy, Debug, PartialEq, Eq, Structural)]
pub enum Codec {
    Json,
    Text,
}

#[verifier::external_type_specification]
#[verifier::external_body]
pub struct ExJsonError(serde_json::Error);

/// Whether serde_json reads the text as one JSON document.
pub uninterp spec fn json_parses(text: Seq<char>) -> bool;

/// Relies on serde_json::from_str at type `serde_json::Value`: the line
/// parsed as one JSON document, or the parse error. Whether it parses
/// depends on the text alone.
#[verifier::external_body]
fn parse_json(line: &str) -> (r: Result<serde_json::Value, serde_json::Error>)
    ensures
        r is Ok == json_parses(line@),
{
    serde_json::from_str(line)
}

/// Relies on the `serde_json::Value::String` variant to carry the line as a
/// JSON string.
#[verifier::external_body]
fn json_string(line: String) -> (r: serde_json::Value) {
    serde_json::Value::String(line)
}

/// A line of a JSON-coded file that is not a JSON document.
#[derive(Debug)]
pub struct InvalidJson {
    pub cause: serde_json::Error,
}

impl Codec {
    /// The log record one line of the file becomes: a JSON line is parsed,
    /// a text line becomes a JSON string. (The JSON value itself is opaque
    /// here; which value comes back is serde_json's.)
    pub fn decode(&self, line: String) -> (r: Result<serde_json::Value, InvalidJson>)
        ensures
            *self == Codec::Text ==> r is Ok,
            *self == Codec::Json ==> (r is Ok <==> json_parses(line@)),
    {
        match self {
            Codec::Json => match parse_json(line.as_str()) {
                Ok(v) => Ok(v),
                Err(cause) => Err(InvalidJson { cause }),
            },
            Codec::Text => Ok(json_string(line)),
        }
    }
}

} // verus!
