use rust_gateway::utils::{clamp_u128, clamp_u64};
use rust_gateway::metrics::{mode_label_of, push_sample, Metrics, MetricsSnapshot};

const NAMES: [&str; 18] = [
    "ws_connections_total",
    "ws_disconnects_total",
    "ws_messages_total",
    "ws_rate_limited_total",
    "publish_total",
    "broker_publish_total",
    "webhook_publish_total",
    "webhook_publish_failed_total",
    "rabbitmq_replay_total",
    "replay_api_requests_total",
    "replay_api_denied_total",
    "replay_api_rate_limited_total",
    "replay_api_idempotent_total",
    "replay_api_success_total",
    "replay_api_errors_total",
    "backpressure_dropped_total",
    "backpressure_closed_total",
    "backpressure_buffered_total",
];

#[test]
fn fresh_exposition_has_every_counter_at_zero() {
    let text = Metrics::new().to_prometheus("core");
    let lines: Vec<&str> = text.lines().collect();
    for name in NAMES.iter() {
        let line = format!("{} 0", name);
        assert!(lines.contains(&line.as_str()), "missing {}", line);
        assert!(text.contains(&format!("# HELP {} ", name)));
        assert!(text.contains(&format!("# TYPE {} counter", name)));
    }
    assert!(text.ends_with('\n'));
}

#[test]
fn increments_show_in_labelled_samples() {
    let m = Metrics::new();
    Metrics::inc(&m.ws_messages_total, 3);
    Metrics::inc(&m.ws_messages_out_total, 2);
    Metrics::inc(&m.replay_api_idempotent_total, 1);
    let text = m.to_prometheus("terminator");
    assert!(text.contains("ws_messages_total 3\n"));
    assert!(text.contains("ws_messages_total{mode=\"terminator\",direction=\"in\"} 3\n"));
    assert!(text.contains("ws_messages_total{mode=\"terminator\",direction=\"out\"} 2\n"));
    assert!(text.contains("replay_api_idempotent_total{mode=\"terminator\"} 1\n"));
}

#[test]
fn first_block_is_exact() {
    let text = MetricsSnapshot::zero().to_prometheus("core");
    let expected = "# HELP ws_connections_total Total accepted websocket connections.\n\
# TYPE ws_connections_total counter\n\
ws_connections_total 0\n\
ws_connections_total{mode=\"core\"} 0\n";
    assert!(text.starts_with(expected));
    assert_eq!(text.lines().count(), 18 * 4 + 1);
}

#[test]
fn unknown_mode_is_labelled_unknown() {
    assert_eq!(mode_label_of("core"), "core");
    assert_eq!(mode_label_of("terminator"), "terminator");
    assert_eq!(mode_label_of("edge"), "unknown");
    let text = Metrics::new().to_prometheus("");
    assert!(text.contains("publish_total{mode=\"unknown\"} 0\n"));
}

#[test]
fn sample_lines_render_labels() {
    let mut lines: Vec<String> = Vec::new();
    push_sample(&mut lines, "x_total", &[], 42);
    push_sample(&mut lines, "x_total", &[("mode", "core"), ("result", "ok")], 18446744073709551615);
    assert_eq!(lines[0], "x_total 42");
    assert_eq!(lines[1], "x_total{mode=\"core\",result=\"ok\"} 18446744073709551615");
}

#[test]
fn counters_wrap_like_fetch_add() {
    let m = Metrics::new();
    Metrics::inc(&m.publish_total, u64::MAX);
    Metrics::inc(&m.publish_total, 2);
    assert_eq!(m.snapshot().publish_total, 1);
}

#[test]
fn clock_reads_after_the_epoch() {
    let secs = rust_gateway::utils::unix_timestamp();
    let millis = rust_gateway::utils::unix_timestamp_millis();
    assert!(secs > 1_600_000_000);
    assert!(millis / 1000 >= secs);
}

#[test]
fn clock_values_are_clamped() {
    assert_eq!(clamp_u64(5), 5);
    assert_eq!(clamp_u64(u64::MAX), i64::MAX);
    assert_eq!(clamp_u128(1_700_000_000_000), 1_700_000_000_000);
    assert_eq!(clamp_u128(u128::MAX), i64::MAX);
}
