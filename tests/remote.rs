use eagle::event::{EagleMsg, Metric, MetricBuilder, MetricEvent, MetricType, Origin, Role, Timestamp};
use eagle::stackdriver::{
    is_transient, AttemptStep, FlushAttempts, FlushOutcome, MetricKind, Resource, SinkAction,
    StackDriverMetricsOptions, StackDriverState, StatusCode, START_WINDOW_NANOS,
};
use std::sync::Arc;

const WALL: Timestamp = Timestamp { seconds: 1_700_000_000, nanos: 0 };

fn event(metric: Metric) -> EagleMsg<MetricEvent> {
    EagleMsg::Msg(MetricEvent {
        origin: Arc::new(Origin::with_id(Role::Source, "host", 1)),
        metric: Arc::new(metric),
    })
}

fn gauge(category: &str, name: &str, value: f64, seconds: i64) -> Metric {
    let ts = Timestamp { seconds, nanos: 10 };
    MetricBuilder::at(MetricType::Gauge, category, name, value.to_bits(), ts).build()
}

fn counter(category: &str, name: &str, value: f64, seconds: i64) -> Metric {
    let ts = Timestamp { seconds, nanos: 20 };
    MetricBuilder::at(MetricType::Counter, category, name, value.to_bits(), ts).build()
}

fn state(batch_size: usize, period_nanos: u128) -> StackDriverState {
    let options = StackDriverMetricsOptions::new("proj").batch_size(batch_size).period(period_nanos);
    StackDriverState::new(options, 0, WALL)
}

#[test]
fn batch_flush_after_second_distinct_metric() {
    let mut s = state(2, 0);
    assert!(matches!(s.step(event(gauge("host", "a", 1.0, 1)), 1, WALL), SinkAction::Continue));
    match s.step(event(gauge("host", "b", 2.0, 1)), 2, WALL) {
        SinkAction::Send(batch) => {
            assert_eq!(batch.len(), 2);
            assert_eq!(batch[0].metric_type, "custom.googleapis.com/host/metrics/a");
            assert_eq!(batch[1].metric_type, "custom.googleapis.com/host/metrics/b");
        }
        _ => panic!("a full batch is sent"),
    }
    s.finish_flush(3, FlushOutcome::Succeeded);
    assert!(matches!(s.step(event(gauge("host", "c", 3.0, 1)), 4, WALL), SinkAction::Continue));
    assert_eq!(s.buffer.len(), 1);
    assert_eq!(s.successes, 1);
}

#[test]
fn dedup_by_key_sends_latest_value() {
    let mut s = state(10, 0);
    assert!(matches!(s.step(event(gauge("net", "rx", 1.0, 1)), 1, WALL), SinkAction::Continue));
    assert!(matches!(s.step(event(gauge("net", "rx", 2.0, 2)), 2, WALL), SinkAction::Continue));
    assert_eq!(s.buffer.len(), 1);
    match s.step(EagleMsg::Tick, 3, WALL) {
        SinkAction::Send(batch) => {
            assert_eq!(batch.len(), 1);
            assert_eq!(batch[0].value, 2);
            assert_eq!(batch[0].end_time.seconds, 2);
        }
        _ => panic!("tick after the period flushes"),
    }
    assert_eq!(s.buffer.len(), 0);
}

#[test]
fn tick_before_period_or_on_empty_buffer_does_nothing() {
    let mut s = state(10, 1_000);
    assert!(matches!(s.step(EagleMsg::Tick, 5_000, WALL), SinkAction::Continue));
    assert!(matches!(s.step(event(gauge("h", "x", 1.0, 1)), 10, WALL), SinkAction::Continue));
    assert!(matches!(s.step(EagleMsg::Tick, 999, WALL), SinkAction::Continue));
    assert_eq!(s.buffer.len(), 1);
    assert!(matches!(s.step(EagleMsg::Tick, 1_000, WALL), SinkAction::Send(_)));
}

#[test]
fn full_buffer_waits_for_period() {
    let mut s = state(1, 1_000);
    assert!(matches!(s.step(event(gauge("h", "x", 1.0, 1)), 10, WALL), SinkAction::Wait));
    assert!(s.waiting);
    assert!(s.ready_batch(999).is_none());
    let batch = s.ready_batch(1_000).expect("period has passed");
    assert_eq!(batch.len(), 1);
    assert!(!s.waiting);
    assert_eq!(s.buffer.len(), 0);
    s.finish_flush(1_200, FlushOutcome::Failed);
    assert_eq!(s.clock, 1_200);
    assert_eq!(s.failures, 1);
}

#[test]
fn shutdown_stops_and_drops_nothing_else() {
    let mut s = state(10, 0);
    s.step(event(gauge("h", "x", 1.0, 1)), 1, WALL);
    assert!(matches!(s.step(EagleMsg::Shutdown, 2, WALL), SinkAction::Stop));
    assert_eq!(s.buffer.len(), 1);
}

#[test]
fn series_fields_follow_metric_and_resources() {
    let options = StackDriverMetricsOptions::new("p")
        .default_resource(Resource::new("global"))
        .map_resource_to("host", Resource::new("gce_instance").add_label("zone", "eu"));
    let mut s = StackDriverState::new(options, 0, WALL);
    let g = MetricBuilder::at(MetricType::Gauge, "host", "load1", 1.9f64.to_bits(), Timestamp { seconds: 50, nanos: 7 })
        .add_tag("device", "sda")
        .build();
    let series = s.to_series(&g);
    assert_eq!(series.metric_type, "custom.googleapis.com/host/metrics/load1");
    assert_eq!(series.metric_kind, MetricKind::Gauge);
    assert_eq!(series.value, 1);
    assert_eq!(series.unit, "INT64");
    assert_eq!(series.start_time, Timestamp { seconds: 50, nanos: 7 });
    assert_eq!(series.end_time, Timestamp { seconds: 50, nanos: 7 });
    assert_eq!(series.resource.resource_type, "gce_instance");
    assert_eq!(series.resource.labels.get("zone").map(|v| v.as_str()), Some("eu"));
    assert_eq!(series.labels.get("device").map(|v| v.as_str()), Some("sda"));
    let c = counter("net", "rx", -3.7, 60);
    let series = s.to_series(&c);
    assert_eq!(series.metric_kind, MetricKind::Cumulative);
    assert_eq!(series.value, -3);
    assert_eq!(series.start_time, WALL);
    assert_eq!(series.resource.resource_type, "global");
    s.step(event(counter("net", "rx", 1.0, 60)), 5, WALL);
    assert_eq!(s.project_name(), "projects/p");
}

#[test]
fn empty_category_and_name_leave_empty_segments() {
    let s = state(10, 0);
    let series = s.to_series(&gauge("", "", 0.0, 1));
    assert_eq!(series.metric_type, "custom.googleapis.com//metrics/");
}

#[test]
fn start_window_resets_after_25_hours() {
    let mut s = state(10, 0);
    let later = Timestamp { seconds: 1_800_000_000, nanos: 1 };
    s.step(event(counter("n", "c", 1.0, 1)), START_WINDOW_NANOS - 1, later);
    assert_eq!(s.started.time, WALL);
    s.step(event(counter("n", "c", 1.0, 1)), START_WINDOW_NANOS, later);
    assert_eq!(s.started.time, later);
    assert_eq!(s.started.at, START_WINDOW_NANOS);
    assert_eq!(s.buffer[0].start_time, later);
}

#[test]
fn retries_only_transient_statuses() {
    assert!(is_transient(StatusCode::Internal));
    assert!(is_transient(StatusCode::Unknown));
    assert!(!is_transient(StatusCode::Unavailable));
    let mut a = FlushAttempts::new(3);
    assert!(a.may_send());
    assert_eq!(a.record(Err(StatusCode::Internal)), AttemptStep::Retry);
    assert!(a.may_send());
    assert_eq!(a.record(Err(StatusCode::Unknown)), AttemptStep::Retry);
    assert!(a.may_send());
    assert_eq!(a.record(Err(StatusCode::Internal)), AttemptStep::Retry);
    assert!(!a.may_send());
    assert_eq!(a.made, 3);
    let mut b = FlushAttempts::new(3);
    assert_eq!(b.record(Err(StatusCode::PermissionDenied)), AttemptStep::Done(FlushOutcome::Failed));
    assert_eq!(b.record(Ok(())), AttemptStep::Done(FlushOutcome::Succeeded));
    assert_eq!(b.made, 2);
    assert!(FlushAttempts::new(1).may_send());
    assert!(!FlushAttempts::new(0).may_send());
}

#[test]
fn options_defaults_and_builders() {
    let o = StackDriverMetricsOptions::new("my-project");
    assert_eq!(o.project_id, "my-project");
    assert_eq!(o.batch_size, 200);
    assert_eq!(o.period_nanos, 10_000_000_000);
    assert_eq!(o.retries, 3);
    assert!(o.credentials_path.is_none());
    let o = o.credentials("/etc/key.json").retries(5);
    assert_eq!(o.credentials_path.as_deref(), Some("/etc/key.json"));
    assert_eq!(o.retries, 5);
    let o = o.credentials_options(None);
    assert!(o.credentials_path.is_none());
    let o = o
        .map_resource_to("host", Resource::new("first"))
        .map_resource_to("host", Resource::new("second"));
    assert_eq!(o.select_resource("host").resource_type, "second");
    assert_eq!(o.select_resource("other").resource_type, "");
}
