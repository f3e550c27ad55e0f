//! Configuration as read from the TOML file: per-kind parameters, their
//! defaults, and the step from a parsed configuration to sink options.
use crate::stackdriver::{mappings_view, Resource, StackDriverMetricsOptions};
use crate::tags::{pairs_view, tag_map, TagMap, TagPair};
use crate::text::same_text;
use vstd::prelude::*;
use vstd::string::StringExecFns;

verus! {

pub fn default_retries() -> (r: usize)
    ensures
        r == 3,
{
    3
}

pub fn default_batch_size() -> (r: usize)
    ensures
        r == 200,
{
    200
}

pub fn default_period_in_secs() -> (r: u64)
    ensures
        r == 10,
{
    10
}

/// A resource as configured: its type and label pairs.
pub struct ResourceConfig {
    pub resource_type: String,
    pub labels: Vec<(String, String)>,
}

impl Default for ResourceConfig {
    fn default() -> (r: ResourceConfig)
        ensures
            r.resource_type@.len() == 0,
            r.labels@.len() == 0,
    {
        ResourceConfig { resource_type: String::new(), labels: Vec::new() }
    }
}

impl ResourceConfig {
    /// The resource; a later pair wins on a repeated label name.
    pub fn into_resource(self) -> (r: Resource)
        ensures
            r@.resource_type == self.resource_type@,
            tag_map(r@.labels) == tag_map(pairs_view(self.labels@)),
    {
        let ResourceConfig { resource_type, labels } = self;
        let ghost all = pairs_view(labels@);
        let mut rest = labels;
        let n = rest.len();
        let mut map = TagMap::new();
        assert(all.subrange(0, 0) =~= Seq::<TagPair>::empty());
        while rest.len() > 0
            invariant
                n == all.len(),
                rest.len() <= n,
                pairs_view(rest@) == all.subrange(n - rest.len(), n as int),
                tag_map(map@) == tag_map(all.subrange(0, n - rest.len())),
            decreases rest.len(),
        {
            let i = n - rest.len();
            let ghost prev = rest@;
            let (k, v) = rest.remove(0);
            proof {
                assert(rest@ =~= prev.subrange(1, prev.len() as int));
                assert(pairs_view(rest@) =~= pairs_view(prev).subrange(1, prev.len() as int));
                let pre = all.subrange(0, i + 1);
                assert(pre.drop_last() =~= all.subrange(0, i as int));
                assert(all.subrange(i as int, n as int)[0] == all[i as int]);
                assert(pre.last() == all[i as int]);
                assert(pairs_view(rest@) =~= all.subrange(i + 1, n as int));
            }
            map.insert(k, v);
        }
        assert(all.subrange(0, n as int) =~= all);
        Resource { resource_type, labels: map }
    }
}

/// A category and the resource its series are reported against.
pub struct MappingConfig {
    pub metric_type: String,
    pub resource: ResourceConfig,
}

/// The configured resource of `category`; a later mapping wins.
pub open spec fn find_mapping(ms: Seq<MappingConfig>, category: Seq<char>) -> Option<ResourceConfig>
    decreases ms.len(),
{
    if ms.len() == 0 {
        None
    } else if ms.last().metric_type@ == category {
        Some(ms.last().resource)
    } else {
        find_mapping(ms.drop_last(), category)
    }
}

/// Whether a resource is the one a configuration describes.
pub open spec fn resource_matches(r: crate::stackdriver::ResourceView, c: ResourceConfig) -> bool {
    r.resource_type == c.resource_type@ && tag_map(r.labels) == tag_map(pairs_view(c.labels@))
}

/// Parameters of the `stackdriver_metrics` sink.
pub struct StackDriverMetricsConfig {
    pub project_id: String,
    pub default_resource: ResourceConfig,
    pub mappings: Vec<MappingConfig>,
    pub credentials_path: Option<String>,
    pub retries: usize,
    pub batch_size: usize,
    pub period_in_secs: u64,
}

impl StackDriverMetricsConfig {
    /// The sink options this configuration describes.
    pub fn into_options(self) -> (r: StackDriverMetricsOptions)
        ensures
            r.project_id@ == self.project_id@,
            r.credentials_path == self.credentials_path,
            r.retries == self.retries,
            r.batch_size == self.batch_size,
            r.period_nanos == self.period_in_secs as u128 * 1_000_000_000,
            resource_matches(r.default_resource@, self.default_resource),
            forall|c: Seq<char>| #![trigger r.resource_for(c)]
                match find_mapping(self.mappings@, c) {
                    Some(rc) => resource_matches(r.resource_for(c), rc),
                    None => resource_matches(r.resource_for(c), self.default_resource),
                },
    {
        let StackDriverMetricsConfig {
            project_id,
            default_resource,
            mappings,
            credentials_path,
            retries,
            batch_size,
            period_in_secs,
        } = self;
        let ghost dc = default_resource;
        let ghost all = mappings@;
        let mut options = StackDriverMetricsOptions::new(project_id.as_str()).default_resource(
            default_resource.into_resource(),
        );
        proof {
            assert forall|c: Seq<char>| #[trigger] options.resource_for(c) == options.default_resource@ by {
                assert(mappings_view(options.resource_mappings@) =~= Seq::empty());
            }
        }
        let mut rest = mappings;
        let n = rest.len();
        assert(all.subrange(0, 0) =~= Seq::<MappingConfig>::empty());
        while rest.len() > 0
            invariant
                n == all.len(),
                rest.len() <= n,
                rest@ == all.subrange(n - rest.len(), n as int),
                resource_matches(options.default_resource@, dc),
                forall|c: Seq<char>| #![trigger options.resource_for(c)]
                    match find_mapping(all.subrange(0, n - rest.len()), c) {
                        Some(rc) => resource_matches(options.resource_for(c), rc),
                        None => resource_matches(options.resource_for(c), dc),
                    },
                options.project_id@ == project_id@,
                options.credentials_path is None,
            decreases rest.len(),
        {
            let i = n - rest.len();
            let m = rest.remove(0);
            let ghost mc = m;
            proof {
                let pre = all.subrange(0, i + 1);
                assert(pre.drop_last() =~= all.subrange(0, i as int));
                assert(all.subrange(i as int, n as int)[0] == all[i as int]);
                assert(pre.last() == all[i as int]);
                assert(rest@ =~= all.subrange(i + 1, n as int));
            }
            let MappingConfig { metric_type, resource } = m;
            let ghost before = options;
            options = options.map_resource_to(metric_type.as_str(), resource.into_resource());
            proof {
                assert forall|c: Seq<char>| #![trigger options.resource_for(c)]
                    match find_mapping(all.subrange(0, i + 1), c) {
                        Some(rc) => resource_matches(options.resource_for(c), rc),
                        None => resource_matches(options.resource_for(c), dc),
                    } by {
                    assert(before.resource_for(c) == before.resource_for(c));
                }
            }
        }
        assert(all.subrange(0, n as int) =~= all);
        let r = options.credentials_options(credentials_path).retries(retries).batch_size(
            batch_size,
        ).period(period_in_secs as u128 * 1_000_000_000);
        assert forall|c: Seq<char>| #[trigger] r.resource_for(c) == options.resource_for(c) by {}
        r
    }
}

/// Parameters of the `tags` transformer: the tags to inject.
pub struct TagsConfig {
    pub tags: TagMap,
}

/// The recognized source kinds.
#[derive(Clone, Copy, Debug, PartialEq, Eq, Structural)]
pub enum SourceKind {
    Disks,
    Memory,
    Load,
    File,
}

/// The recognized sink kinds.
#[derive(Clone, Copy, Debug, PartialEq, Eq, Structural)]
pub enum SinkKind {
    Console,
    StackDriverMetrics,
}

/// The recognized transformer kinds.
#[derive(Clone, Copy, Debug, PartialEq, Eq, Structural)]
pub enum TransformerKind {
    Tags,
}

/// A kind that the configuration names but that nothing implements.
#[derive(Debug)]
pub enum ConfigError {
    UnknownSource(String),
    UnknownSink(String),
    UnknownTransformer(String),
}

impl ConfigError {
    /// The message shown when startup stops on this error.
    pub fn message(&self) -> (r: String)
        ensures
            r@ == match self {
                ConfigError::UnknownSource(k) => "Unknown source '"@ + k@ + "'"@,
                ConfigError::UnknownSink(k) => "Unknown sink '"@ + k@ + "'"@,
                ConfigError::UnknownTransformer(k) => "Unknown transformer '"@ + k@ + "'"@,
            },
    {
        let (mut r, k) = match self {
            ConfigError::UnknownSource(k) => (String::from_str("Unknown source '"), k),
            ConfigError::UnknownSink(k) => (String::from_str("Unknown sink '"), k),
            ConfigError::UnknownTransformer(k) => (String::from_str("Unknown transformer '"), k),
        };
        r.append(k.as_str());
        r.append("'");
        r
    }
}

impl SourceKind {
    /// The source kind a table key names.
    pub fn parse(kind: &str) -> (r: Result<SourceKind, ConfigError>)
        ensures
            match r {
                Ok(SourceKind::Disks) => kind@ == "disks"@,
                Ok(SourceKind::Memory) => kind@ == "memory"@,
                Ok(SourceKind::Load) => kind@ == "load"@,
                Ok(SourceKind::File) => kind@ == "file"@,
                Err(e) => e matches ConfigError::UnknownSource(k) && k@ == kind@ && kind@ != "disks"@
                    && kind@ != "memory"@ && kind@ != "load"@ && kind@ != "file"@,
            },
    {
        if same_text(kind, "disks") {
            Ok(SourceKind::Disks)
        } else if same_text(kind, "memory") {
            Ok(SourceKind::Memory)
        } else if same_text(kind, "load") {
            Ok(SourceKind::Load)
        } else if same_text(kind, "file") {
            Ok(SourceKind::File)
        } else {
            Err(ConfigError::UnknownSource(String::from_str(kind)))
        }
    }
}

impl SinkKind {
    /// The sink kind a table key names.
    pub fn parse(kind: &str) -> (r: Result<SinkKind, ConfigError>)
        ensures
            match r {
                Ok(SinkKind::Console) => kind@ == "console"@,
                Ok(SinkKind::StackDriverMetrics) => kind@ == "stackdriver_metrics"@,
                Err(e) => e matches ConfigError::UnknownSink(k) && k@ == kind@ && kind@ != "console"@
                    && kind@ != "stackdriver_metrics"@,
            },
    {
        if same_text(kind, "console") {
            Ok(SinkKind::Console)
        } else if same_text(kind, "stackdriver_metrics") {
            Ok(SinkKind::StackDriverMetrics)
        } else {
            Err(ConfigError::UnknownSink(String::from_str(kind)))
        }
    }
}

impl TransformerKind {
    /// The transformer kind a table key names.
    pub fn parse(kind: &str) -> (r: Result<TransformerKind, ConfigError>)
        ensures
            match r {
                Ok(TransformerKind::Tags) => kind@ == "tags"@,
                Err(e) => e matches ConfigError::UnknownTransformer(k) && k@ == kind@ && kind@ != "tags"@,
            },
    {
        if same_text(kind, "tags") {
            Ok(TransformerKind::Tags)
        } else {
            Err(ConfigError::UnknownTransformer(String::from_str(kind)))
        }
    }
}

} // verus!
