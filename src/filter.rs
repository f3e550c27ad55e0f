//! Per-sink predicates over the origin and the metric.
use crate::event::{Metric, Origin};
use crate::text::{has_prefix, has_suffix, same_text};
use vstd::prelude::*;
use vstd::string::StringExecFns;

verus! {

/// Which metrics a sink takes, built from a few primitives.
pub enum MetricFilter {
    /// Every metric.
    All,
    /// Metrics whose source is named exactly so.
    SourceNameEquals(String),
    /// Metrics whose source name begins with the text.
    SourceNameStartsWith(String),
    /// Metrics whose source name ends with the text.
    SourceNameEndsWith(String),
    /// Metrics of exactly this category.
    CategoryEquals(String),
}

impl MetricFilter {
    /// Whether the filter admits a metric of `category` from a source named
    /// `source_name`.
    pub open spec fn admits(&self, source_name: Seq<char>, category: Seq<char>) -> bool {
        match self {
            MetricFilter::All => true,
            MetricFilter::SourceNameEquals(n) => source_name == n@,
            MetricFilter::SourceNameStartsWith(p) => p@.is_prefix_of(source_name),
            MetricFilter::SourceNameEndsWith(x) => x@.len() <= source_name.len()
                && x@ == source_name.subrange(source_name.len() - x@.len(), source_name.len() as int),
            MetricFilter::CategoryEquals(c) => category == c@,
        }
    }

    pub fn is_handled(&self, origin: &Origin, metric: &Metric) -> (r: bool)
        ensures
            r == self.admits(origin.name@, metric.category@),
    {
        match self {
            MetricFilter::All => true,
            MetricFilter::SourceNameEquals(n) => same_text(origin.name.as_str(), n.as_str()),
            MetricFilter::SourceNameStartsWith(p) => has_prefix(origin.name.as_str(), p.as_str()),
            MetricFilter::SourceNameEndsWith(x) => has_suffix(origin.name.as_str(), x.as_str()),
            MetricFilter::CategoryEquals(c) => same_text(metric.category.as_str(), c.as_str()),
        }
    }

    pub fn no_filter() -> (r: MetricFilter)
        ensures
            r == MetricFilter::All,
    {
        MetricFilter::All
    }

    pub fn source_name_equals(name: &str) -> (r: MetricFilter)
        ensures
            r matches MetricFilter::SourceNameEquals(n) && n@ == name@,
    {
        MetricFilter::SourceNameEquals(String::from_str(name))
    }

    pub fn source_name_starts_with(name: &str) -> (r: MetricFilter)
        ensures
            r matches MetricFilter::SourceNameStartsWith(n) && n@ == name@,
    {
        MetricFilter::SourceNameStartsWith(String::from_str(name))
    }

    pub fn source_name_ends_with(name: &str) -> (r: MetricFilter)
        ensures
            r matches MetricFilter::SourceNameEndsWith(n) && n@ == name@,
    {
        MetricFilter::SourceNameEndsWith(String::from_str(name))
    }

    pub fn category_equals(name: &str) -> (r: MetricFilter)
        ensures
            r matches MetricFilter::CategoryEquals(n) && n@ == name@,
    {
        MetricFilter::CategoryEquals(String::from_str(name))
    }
}

} // verus!
