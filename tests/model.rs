use eagle::event::{MetricBuilder, MetricType, Origin, Role, Timestamp};
use eagle::settings::{
    default_batch_size, default_period_in_secs, default_retries, ConfigError, MappingConfig,
    ResourceConfig, SinkKind, SourceKind, StackDriverMetricsConfig, TransformerKind,
};
use eagle::sinks::{Console, ConsoleStep};
use eagle::sources::{Codec, Disks};
use eagle::event::EagleMsg;
use eagle::value::truncate_to_i64;

#[test]
fn origin_instance_id_is_derived() {
    let o = Origin::with_id(Role::Source, "disks", 0x0123_4567_89ab_cdef_0123_4567_89ab_cdef);
    assert_eq!(o.instance_id(), "source-disks:01234567-89ab-cdef-0123-456789abcdef");
    let s = Origin::with_id(Role::Sink, "console", 0);
    assert_eq!(s.instance_id(), "sink-console:00000000-0000-0000-0000-000000000000");
}

#[test]
fn fresh_origins_have_distinct_ids() {
    let a = Origin::new("host");
    let b = Origin::new("host");
    assert_ne!(a.id, b.id);
    assert!(a.instance_id().starts_with("source-host:"));
    assert_eq!(a.instance_id().len(), "source-host:".len() + 36);
    assert!(Origin::new_sink("out").instance_id().starts_with("sink-out:"));
    assert_eq!((a.id >> 76) & 0xf, 4);
}

#[test]
fn builders_stamp_current_time() {
    let m = MetricBuilder::gauge("host", "load1", 1.5f64.to_bits()).build();
    assert_eq!(m.metric_type, MetricType::Gauge);
    assert!(m.timestamp.seconds > 1_500_000_000);
    assert!(m.timestamp.nanos < 1_000_000_000);
    assert_eq!(f64::from_bits(m.value_bits), 1.5);
    let c = MetricBuilder::counter("net", "rx", 10.0f64.to_bits()).build();
    assert_eq!(c.metric_type, MetricType::Counter);
    assert_eq!(c.category, "net");
    assert_eq!(c.name, "rx");
}

#[test]
fn value_truncation_matches_float_cast() {
    for v in [
        0.0f64, -0.0, 1.5, -1.5, 2.999, -2.999, 1e10, -1e10, 4503599627370496.5, 9.2e18, -9.2e18,
        1e19, -1e19, 1e300, -1e300, f64::INFINITY, f64::NEG_INFINITY, f64::NAN, 1e-300, 0.5,
        9007199254740993.0, 123456789.75,
    ] {
        assert_eq!(truncate_to_i64(v.to_bits()), v as i64, "value {}", v);
    }
}

#[test]
fn config_defaults() {
    assert_eq!(default_retries(), 3);
    assert_eq!(default_batch_size(), 200);
    assert_eq!(default_period_in_secs(), 10);
}

#[test]
fn config_into_options() {
    let config = StackDriverMetricsConfig {
        project_id: "proj".to_string(),
        default_resource: ResourceConfig {
            resource_type: "global".to_string(),
            labels: vec![("a".to_string(), "1".to_string())],
        },
        mappings: vec![
            MappingConfig {
                metric_type: "host".to_string(),
                resource: ResourceConfig { resource_type: "gce_instance".to_string(), labels: vec![] },
            },
            MappingConfig {
                metric_type: "host".to_string(),
                resource: ResourceConfig {
                    resource_type: "k8s_node".to_string(),
                    labels: vec![("z".to_string(), "1".to_string()), ("z".to_string(), "2".to_string())],
                },
            },
        ],
        credentials_path: Some("/k.json".to_string()),
        retries: 4,
        batch_size: 50,
        period_in_secs: 7,
    };
    let o = config.into_options();
    assert_eq!(o.project_id, "proj");
    assert_eq!(o.retries, 4);
    assert_eq!(o.batch_size, 50);
    assert_eq!(o.period_nanos, 7_000_000_000);
    assert_eq!(o.credentials_path.as_deref(), Some("/k.json"));
    let host = o.select_resource("host");
    assert_eq!(host.resource_type, "k8s_node");
    assert_eq!(host.labels.get("z").map(|s| s.as_str()), Some("2"));
    let other = o.select_resource("net");
    assert_eq!(other.resource_type, "global");
    assert_eq!(other.labels.get("a").map(|s| s.as_str()), Some("1"));
    let empty = ResourceConfig::default().into_resource();
    assert_eq!(empty.resource_type, "");
    assert_eq!(empty.labels.len(), 0);
}

#[test]
fn kind_parsing_and_errors() {
    assert_eq!(SourceKind::parse("disks").unwrap(), SourceKind::Disks);
    assert_eq!(SourceKind::parse("memory").unwrap(), SourceKind::Memory);
    assert_eq!(SourceKind::parse("load").unwrap(), SourceKind::Load);
    assert_eq!(SourceKind::parse("file").unwrap(), SourceKind::File);
    assert_eq!(SinkKind::parse("console").unwrap(), SinkKind::Console);
    assert_eq!(SinkKind::parse("stackdriver_metrics").unwrap(), SinkKind::StackDriverMetrics);
    assert_eq!(TransformerKind::parse("tags").unwrap(), TransformerKind::Tags);
    let e = SourceKind::parse("cpu").unwrap_err();
    assert!(matches!(e, ConfigError::UnknownSource(_)));
    assert_eq!(e.message(), "Unknown source 'cpu'");
    let e = SinkKind::parse("kafka").unwrap_err();
    assert!(matches!(e, ConfigError::UnknownSink(_)));
    assert_eq!(e.message(), "Unknown sink 'kafka'");
    let e = TransformerKind::parse("rename").unwrap_err();
    assert!(matches!(e, ConfigError::UnknownTransformer(_)));
    assert_eq!(e.message(), "Unknown transformer 'rename'");
}

#[test]
fn console_prints_metrics_only() {
    let console = Console;
    assert_eq!(console.handle(&EagleMsg::Tick), ConsoleStep::Skip);
    assert_eq!(console.handle(&EagleMsg::Shutdown), ConsoleStep::Stop);
}

#[test]
fn disks_watch_listed_devices() {
    let d = Disks::new(vec!["nvme0n1".to_string(), "sda".to_string()]);
    assert!(d.watches("sda"));
    assert!(!d.watches("sdb"));
    assert!(!Disks::new(vec![]).watches("sda"));
}

#[test]
fn timestamps_compare_by_value() {
    assert_eq!(Timestamp { seconds: 1, nanos: 2 }, Timestamp { seconds: 1, nanos: 2 });
}

#[test]
fn file_lines_decode_by_codec() {
    let v = Codec::Json.decode("{\"a\": 1}".to_string()).expect("valid JSON");
    assert_eq!(v["a"].as_i64(), Some(1));
    let e = Codec::Json.decode("not json".to_string());
    assert!(e.is_err());
    let t = Codec::Text.decode("plain line".to_string()).expect("text never fails");
    assert_eq!(t.as_str(), Some("plain line"));
}
