//! Per-registration options.
use crate::filter::MetricFilter;
use vstd::prelude::*;

verus! {

/// Options of a sink: which metrics it takes.
pub struct SinkConfig {
    pub filter: MetricFilter,
}

impl Default for SinkConfig {
    fn default() -> (r: SinkConfig)
        ensures
            r.filter == MetricFilter::All,
    {
        SinkConfig { filter: MetricFilter::no_filter() }
    }
}

impl SinkConfig {
    /// The same options with another filter.
    pub fn filter(self, filter: MetricFilter) -> (r: SinkConfig)
        ensures
            r.filter == filter,
    {
        SinkConfig { filter }
    }
}

/// Options of a transformer; reserved for per-instance tuning.
pub struct TransformerConfig {
    pub filter: MetricFilter,
}

impl Default for TransformerConfig {
    fn default() -> (r: TransformerConfig)
        ensures
            r.filter == MetricFilter::All,
    {
        TransformerConfig { filter: MetricFilter::no_filter() }
    }
}

/// Options of a source; reserved for per-instance tuning.
#[derive(Default)]
pub struct SourceConfig {}

} // verus!
