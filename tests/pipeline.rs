use eagle::config::SinkConfig;
use eagle::engine::{Engine, SinkSlot};
use eagle::event::{Metric, MetricBuilder, MetricType, MetricView, Origin, Role, Timestamp};
use eagle::filter::MetricFilter;
use eagle::tags::TagMap;
use eagle::transform::{run_chain, Tags, Transformer};

fn at() -> Timestamp {
    Timestamp { seconds: 1_600_000_000, nanos: 5 }
}

fn gauge(category: &str, name: &str, value: f64) -> Metric {
    MetricBuilder::at(MetricType::Gauge, category, name, value.to_bits(), at()).build()
}

fn counter(category: &str, name: &str, value: f64) -> Metric {
    MetricBuilder::at(MetricType::Counter, category, name, value.to_bits(), at()).build()
}

fn slot(id: u128, name: &str, filter: MetricFilter) -> SinkSlot {
    SinkSlot { id, name: name.to_string(), filter }
}

fn pairs(tags: &TagMap) -> Vec<(String, String)> {
    tags.pairs().clone()
}

struct DropNamed;

impl Transformer for DropNamed {
    fn outcome(&self, _origin: &Origin, _m: MetricView) -> Option<MetricView> {
        unreachable!("a specification function, never run")
    }

    fn transform(&mut self, _origin: &Origin, metric: Metric) -> Option<Metric> {
        if metric.name == "drop_me" {
            None
        } else {
            Some(metric)
        }
    }
}

struct Rename(&'static str);

impl Transformer for Rename {
    fn outcome(&self, _origin: &Origin, _m: MetricView) -> Option<MetricView> {
        unreachable!("a specification function, never run")
    }

    fn transform(&mut self, _origin: &Origin, mut metric: Metric) -> Option<Metric> {
        metric.name = self.0.to_string();
        Some(metric)
    }
}

enum Step {
    Rename(Rename),
    Drop(DropNamed),
}

impl Transformer for Step {
    fn outcome(&self, _origin: &Origin, _m: MetricView) -> Option<MetricView> {
        unreachable!("a specification function, never run")
    }

    fn transform(&mut self, origin: &Origin, metric: Metric) -> Option<Metric> {
        match self {
            Step::Rename(r) => r.transform(origin, metric),
            Step::Drop(d) => d.transform(origin, metric),
        }
    }
}

#[test]
fn chain_runs_in_order_and_stops_at_drop() {
    let origin = Origin::with_id(Role::Source, "src", 3);
    let mut chain = vec![Step::Rename(Rename("drop_me")), Step::Drop(DropNamed), Step::Rename(Rename("late"))];
    assert!(run_chain(&mut chain, &origin, gauge("c", "keep", 1.0)).is_none());
    let mut chain = vec![Step::Drop(DropNamed), Step::Rename(Rename("drop_me")), Step::Rename(Rename("last"))];
    let out = run_chain(&mut chain, &origin, gauge("c", "keep", 1.0)).expect("not dropped");
    assert_eq!(out.name, "last");
}

#[test]
fn tags_transformer_twice_equals_once() {
    let mut injected = TagMap::new();
    injected.insert("env".to_string(), "prod".to_string());
    let mut tags = Tags::new(injected);
    let origin = Origin::with_id(Role::Source, "src", 1);
    let m = MetricBuilder::at(MetricType::Gauge, "host", "load1", 0, at()).add_tag("env", "dev").build();
    let once = tags.transform(&origin, m).unwrap();
    let once_pairs = pairs(&once.tags);
    let twice = tags.transform(&origin, once).unwrap();
    assert_eq!(pairs(&twice.tags), once_pairs);
}

#[test]
fn fan_out_respects_filters() {
    let engine = Engine::new(vec![
        slot(1, "A", MetricFilter::no_filter()),
        slot(2, "B", MetricFilter::category_equals("host")),
    ]);
    let origin = Origin::with_id(Role::Source, "host", 7);
    let load = gauge("host", "load1", 1.5);
    let rx = counter("net", "rx", 10.0);
    assert_eq!(engine.targets(&origin, &load), vec![1, 2]);
    assert_eq!(engine.targets(&origin, &rx), vec![1]);
}

#[test]
fn transformer_drop_removes_metric() {
    let origin = Origin::with_id(Role::Source, "src", 3);
    let mut chain = vec![DropNamed];
    let kept = run_chain(&mut chain, &origin, gauge("c", "keep", 1.0));
    let dropped = run_chain(&mut chain, &origin, gauge("c", "drop_me", 1.0));
    assert!(dropped.is_none());
    let kept = kept.expect("keep passes");
    assert_eq!(kept.name, "keep");
    let engine = Engine::new(vec![slot(9, "sink", MetricFilter::no_filter())]);
    assert_eq!(engine.targets(&origin, &kept), vec![9]);
}

#[test]
fn empty_chain_passes_metric_unchanged() {
    let origin = Origin::with_id(Role::Source, "src", 3);
    let mut chain: Vec<DropNamed> = Vec::new();
    let out = run_chain(&mut chain, &origin, gauge("c", "drop_me", 2.0)).expect("no transformer");
    assert_eq!(out.name, "drop_me");
}

#[test]
fn tags_transformer_merges_and_overwrites() {
    let mut injected = TagMap::new();
    injected.insert("env".to_string(), "prod".to_string());
    let mut tags = Tags::new(injected);
    let metric = MetricBuilder::at(MetricType::Gauge, "host", "load1", 1.0f64.to_bits(), at())
        .add_tag("host", "h1")
        .build();
    let origin = Origin::with_id(Role::Source, "src", 1);
    let out = tags.transform(&origin, metric).expect("tags never drop");
    assert_eq!(
        pairs(&out.tags),
        vec![
            ("env".to_string(), "prod".to_string()),
            ("host".to_string(), "h1".to_string())
        ]
    );
    let clash = MetricBuilder::at(MetricType::Gauge, "host", "load1", 1.0f64.to_bits(), at())
        .add_tag("env", "dev")
        .build();
    let out = tags.apply(clash);
    assert_eq!(pairs(&out.tags), vec![("env".to_string(), "prod".to_string())]);
}

#[test]
fn tag_order_does_not_depend_on_insertion() {
    let a = MetricBuilder::at(MetricType::Gauge, "c", "n", 0, at())
        .add_tag("zone", "eu")
        .add_tag("app", "web")
        .add_tag("host", "h1")
        .build();
    let b = MetricBuilder::at(MetricType::Gauge, "c", "n", 0, at())
        .add_tag("host", "h1")
        .add_tag("zone", "eu")
        .add_tag("app", "web")
        .build();
    assert_eq!(pairs(&a.tags), pairs(&b.tags));
    assert_eq!(pairs(&a.tags)[0].0, "app");
    assert_eq!(pairs(&a.tags)[2].0, "zone");
}

#[test]
fn repeated_tag_key_keeps_last_value() {
    let m = MetricBuilder::at(MetricType::Gauge, "c", "n", 0, at())
        .add_tag("k", "1")
        .add_tag("k", "2")
        .build();
    assert_eq!(pairs(&m.tags), vec![("k".to_string(), "2".to_string())]);
    assert_eq!(m.tags.get("k").map(|s| s.as_str()), Some("2"));
    assert_eq!(m.tags.get("absent"), None);
}

#[test]
fn dead_sinks_are_removed() {
    let mut engine = Engine::new(vec![
        slot(1, "a", MetricFilter::no_filter()),
        slot(2, "b", MetricFilter::no_filter()),
        slot(3, "c", MetricFilter::no_filter()),
    ]);
    engine.remove_dead(&vec![2]);
    let origin = Origin::with_id(Role::Source, "s", 0);
    assert_eq!(engine.targets(&origin, &gauge("x", "y", 1.0)), vec![1, 3]);
    assert_eq!(engine.sink_count(), 2);
}

#[test]
fn orderly_shutdown_reaches_every_live_sink_once() {
    let mut engine = Engine::new(vec![
        slot(5, "slow", MetricFilter::no_filter()),
        slot(6, "fast", MetricFilter::no_filter()),
    ]);
    assert!(engine.is_running());
    assert_eq!(engine.shutdown(), vec![5, 6]);
    assert!(!engine.is_running());
    let origin = Origin::with_id(Role::Source, "s", 0);
    assert!(engine.targets(&origin, &gauge("x", "y", 1.0)).is_empty());
    assert!(engine.shutdown().is_empty());
}

#[test]
fn source_name_filters() {
    let origin = Origin::with_id(Role::Source, "host-disk", 1);
    let m = gauge("host", "x", 1.0);
    assert!(MetricFilter::source_name_equals("host-disk").is_handled(&origin, &m));
    assert!(!MetricFilter::source_name_equals("host").is_handled(&origin, &m));
    assert!(MetricFilter::source_name_starts_with("host").is_handled(&origin, &m));
    assert!(!MetricFilter::source_name_starts_with("disk").is_handled(&origin, &m));
    assert!(MetricFilter::source_name_ends_with("disk").is_handled(&origin, &m));
    assert!(!MetricFilter::source_name_ends_with("host").is_handled(&origin, &m));
    assert!(MetricFilter::source_name_ends_with("").is_handled(&origin, &m));
    assert!(!MetricFilter::category_equals("net").is_handled(&origin, &m));
    assert!(MetricFilter::no_filter().is_handled(&origin, &m));
}

#[test]
fn sink_config_defaults_to_match_all() {
    let origin = Origin::with_id(Role::Source, "s", 1);
    let m = gauge("net", "rx", 1.0);
    let config = SinkConfig::default();
    assert!(config.filter.is_handled(&origin, &m));
    let config = config.filter(MetricFilter::category_equals("host"));
    assert!(!config.filter.is_handled(&origin, &m));
}
