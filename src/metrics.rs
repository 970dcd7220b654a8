//! Monotonic counters and their text exposition.

use std::sync::atomic::{AtomicU64, Ordering};
use vstd::prelude::*;

use crate::text::{decimal_u64, nat_decimal, push_char, push_str, str_eq};

verus! {

/// The label value that stands for an exposition mode.
pub open spec fn mode_label(mode: Seq<char>) -> Seq<char> {
    if mode == "core"@ {
        "core"@
    } else if mode == "terminator"@ {
        "terminator"@
    } else {
        "unknown"@
    }
}

/// `key="value"`.
pub open spec fn label_text(key: Seq<char>, value: Seq<char>) -> Seq<char> {
    key + seq!['=', '"'] + value + seq!['"']
}

/// The labels of a sample, separated by commas.
pub open spec fn labels_text(labels: Seq<(&str, &str)>) -> Seq<char>
    decreases labels.len(),
{
    if labels.len() == 0 {
        Seq::empty()
    } else if labels.len() == 1 {
        label_text(labels[0].0@, labels[0].1@)
    } else {
        labels_text(labels.drop_last()) + seq![','] + label_text(
            labels.last().0@,
            labels.last().1@,
        )
    }
}

/// One sample line: `name value` or `name{labels} value`.
pub open spec fn sample_line(name: Seq<char>, labels: Seq<(&str, &str)>, value: u64) -> Seq<char> {
    if labels.len() == 0 {
        name + seq![' '] + nat_decimal(value as nat)
    } else {
        name + seq!['{'] + labels_text(labels) + seq!['}', ' '] + nat_decimal(value as nat)
    }
}

/// The `# HELP` line of a counter.
pub open spec fn help_line(name: Seq<char>, help: Seq<char>) -> Seq<char> {
    "# HELP "@ + name + seq![' '] + help
}

/// The `# TYPE` line of a counter.
pub open spec fn type_line(name: Seq<char>) -> Seq<char> {
    "# TYPE "@ + name + " counter"@
}

/// Appends the `# HELP` and `# TYPE` lines of a counter.
pub fn push_help_type(lines: &mut Vec<String>, name: &str, help: &str)
    ensures
        final(lines).deep_view() == old(lines).deep_view().push(help_line(name@, help@)).push(
            type_line(name@),
        ),
{
    let mut h = String::from_str("# HELP ");
    push_str(&mut h, name);
    push_char(&mut h, ' ');
    push_str(&mut h, help);
    let mut t = String::from_str("# TYPE ");
    push_str(&mut t, name);
    push_str(&mut t, " counter");
    assert(h@ == help_line(name@, help@));
    assert(t@ == type_line(name@));
    lines.push(h);
    lines.push(t);
    proof {
        assert(lines.deep_view() =~= old(lines).deep_view().push(help_line(name@, help@)).push(
            type_line(name@),
        ));
    }
}

/// Appends one sample line of counter `name` with the given labels.
pub fn push_sample(lines: &mut Vec<String>, name: &str, labels: &[(&str, &str)], value: u64)
    ensures
        final(lines).deep_view() == old(lines).deep_view().push(sample_line(name@, labels@, value)),
{
    let mut line = String::from_str(name);
    if labels.len() > 0 {
        let mut label_str = String::new();
        let mut idx: usize = 0;
        while idx < labels.len()
            invariant
                0 < labels@.len(),
                idx <= labels@.len(),
                label_str@ == labels_text(labels@.subrange(0, idx as int)),
            decreases labels.len() - idx,
        {
            if idx > 0 {
                push_char(&mut label_str, ',');
            }
            let (key, val) = labels[idx];
            push_str(&mut label_str, key);
            push_char(&mut label_str, '=');
            push_char(&mut label_str, '"');
            push_str(&mut label_str, val);
            push_char(&mut label_str, '"');
            proof {
                let pre = labels@.subrange(0, idx as int);
                let post = labels@.subrange(0, idx + 1);
                assert(post.drop_last() =~= pre);
                assert(post.last() == labels@[idx as int]);
                if idx == 0 {
                    assert(label_str@ =~= label_text(key@, val@));
                } else {
                    assert(label_str@ =~= labels_text(pre) + seq![','] + label_text(key@, val@));
                }
            }
            idx = idx + 1;
        }
        assert(labels@.subrange(0, labels@.len() as int) =~= labels@);
        push_char(&mut line, '{');
        push_str(&mut line, label_str.as_str());
        push_char(&mut line, '}');
    }
    push_char(&mut line, ' ');
    let digits = decimal_u64(value);
    push_str(&mut line, digits.as_str());
    proof {
        if labels@.len() == 0 {
            assert(line@ =~= sample_line(name@, labels@, value));
        } else {
            assert(line@ =~= sample_line(name@, labels@, value));
        }
    }
    lines.push(line);
    proof {
        assert(lines.deep_view() =~= old(lines).deep_view().push(sample_line(name@, labels@, value)));
    }
}

/// The text of a list of lines: each line followed by a newline.
pub open spec fn lines_text(lines: Seq<Seq<char>>) -> Seq<char>
    decreases lines.len(),
{
    if lines.len() == 0 {
        Seq::empty()
    } else {
        lines_text(lines.drop_last()) + lines.last() + seq!['\n']
    }
}

/// Joins the lines, ending each with a newline.
pub fn join_lines(lines: &Vec<String>) -> (r: String)
    ensures
        r@ == lines_text(lines.deep_view()),
{
    let mut r = String::new();
    let mut i: usize = 0;
    while i < lines.len()
        invariant
            i <= lines@.len(),
            r@ == lines_text(lines.deep_view().subrange(0, i as int)),
        decreases lines.len() - i,
    {
        push_str(&mut r, lines[i].as_str());
        push_char(&mut r, '\n');
        proof {
            let sub = lines.deep_view().subrange(0, i + 1);
            assert(sub.drop_last() =~= lines.deep_view().subrange(0, i as int));
            assert(sub.last() == lines@[i as int]@);
        }
        i = i + 1;
    }
    assert(lines.deep_view().subrange(0, lines@.len() as int) =~= lines.deep_view());
    r
}

/// The optional second label of a labelled sample, as characters.
pub open spec fn extra_view(extra: Option<(&str, &str)>) -> Option<(Seq<char>, Seq<char>)> {
    match extra {
        Some(p) => Some((p.0@, p.1@)),
        None => None,
    }
}

/// The labelled sample of a counter: `mode` first, then the optional second label.
pub open spec fn labelled_line(
    name: Seq<char>,
    mode: Seq<char>,
    extra: Option<(Seq<char>, Seq<char>)>,
    value: u64,
) -> Seq<char> {
    let labels = match extra {
        None => label_text("mode"@, mode),
        Some(e) => label_text("mode"@, mode) + seq![','] + label_text(e.0, e.1),
    };
    name + seq!['{'] + labels + seq!['}', ' '] + nat_decimal(value as nat)
}

/// The four lines of one counter: help, type, unlabelled and labelled sample.
pub open spec fn counter_lines(
    name: Seq<char>,
    help: Seq<char>,
    value: u64,
    mode: Seq<char>,
    extra: Option<(Seq<char>, Seq<char>)>,
) -> Seq<Seq<char>> {
    seq![
        help_line(name, help),
        type_line(name),
        name + seq![' '] + nat_decimal(value as nat),
        labelled_line(name, mode, extra, value),
    ]
}

/// Appends the labelled sample of a counter.
pub fn push_labelled(
    lines: &mut Vec<String>,
    name: &str,
    mode: &str,
    extra: Option<(&str, &str)>,
    value: u64,
)
    ensures
        final(lines).deep_view() == old(lines).deep_view().push(
            labelled_line(name@, mode@, extra_view(extra), value),
        ),
{
    match extra {
        None => {
            let labels = [("mode", mode)];
            push_sample(lines, name, &labels, value);
            proof {
                assert(labels@.len() == 1);
                assert(sample_line(name@, labels@, value) =~= labelled_line(
                    name@,
                    mode@,
                    extra_view(extra),
                    value,
                ));
            }
        },
        Some(e) => {
            let labels = [("mode", mode), e];
            push_sample(lines, name, &labels, value);
            proof {
                assert(labels@.len() == 2);
                assert(labels@.drop_last() =~= seq![("mode", mode)]);
                assert(labels_text(labels@.drop_last()) == label_text("mode"@, mode@));
                assert(labels@.last() == e);
                assert(labels_text(labels@) == label_text("mode"@, mode@) + seq![','] + label_text(
                    e.0@,
                    e.1@,
                ));
                assert(sample_line(name@, labels@, value) =~= labelled_line(
                    name@,
                    mode@,
                    extra_view(extra),
                    value,
                ));
            }
        },
    }
}

/// Appends the help, type, unlabelled and labelled lines of a counter.
pub fn push_counter(
    lines: &mut Vec<String>,
    name: &str,
    help: &str,
    value: u64,
    mode: &str,
    extra: Option<(&str, &str)>,
)
    ensures
        final(lines).deep_view() == old(lines).deep_view() + counter_lines(
            name@,
            help@,
            value,
            mode@,
            extra_view(extra),
        ),
{
    push_help_type(lines, name, help);
    let no_labels: [(&str, &str); 0] = [];
    push_sample(lines, name, &no_labels, value);
    proof {
        assert(no_labels@.len() == 0);
        assert(sample_line(name@, no_labels@, value) =~= name@ + seq![' '] + nat_decimal(
            value as nat,
        ));
    }
    push_labelled(lines, name, mode, extra, value);
    proof {
        assert(lines.deep_view() =~= old(lines).deep_view() + counter_lines(
            name@,
            help@,
            value,
            mode@,
            extra_view(extra),
        ));
    }
}

/// The value of every counter at one moment.
#[derive(Clone, Copy, Debug)]
pub struct MetricsSnapshot {
    pub ws_connections_total: u64,
    pub ws_disconnects_total: u64,
    pub ws_messages_total: u64,
    pub ws_messages_out_total: u64,
    pub ws_rate_limited_total: u64,
    pub publish_total: u64,
    pub broker_publish_total: u64,
    pub webhook_publish_total: u64,
    pub webhook_publish_failed_total: u64,
    pub rabbitmq_replay_total: u64,
    pub replay_api_requests_total: u64,
    pub replay_api_denied_total: u64,
    pub replay_api_rate_limited_total: u64,
    pub replay_api_idempotent_total: u64,
    pub replay_api_success_total: u64,
    pub replay_api_errors_total: u64,
    pub backpressure_dropped_total: u64,
    pub backpressure_closed_total: u64,
    pub backpressure_buffered_total: u64,
}

/// The exposition lines of a snapshot for the given mode.
pub open spec fn exposition_lines(s: MetricsSnapshot, mode: Seq<char>) -> Seq<Seq<char>> {
    let m = mode_label(mode);
    counter_lines("ws_connections_total"@, "Total accepted websocket connections."@, s.ws_connections_total, m, None)
        + counter_lines("ws_disconnects_total"@, "Total websocket disconnects."@, s.ws_disconnects_total, m, None)
        + counter_lines("ws_messages_total"@, "Total websocket messages received/sent."@, s.ws_messages_total, m, Some(("direction"@, "in"@))).push(
            labelled_line("ws_messages_total"@, m, Some(("direction"@, "out"@)), s.ws_messages_out_total),
        )
        + counter_lines("ws_rate_limited_total"@, "Total websocket rate limited messages."@, s.ws_rate_limited_total, m, Some(("result"@, "rate_limited"@)))
        + counter_lines("publish_total"@, "Total publish requests."@, s.publish_total, m, None)
        + counter_lines("broker_publish_total"@, "Total broker publish attempts."@, s.broker_publish_total, m, None)
        + counter_lines("webhook_publish_total"@, "Total webhook publish successes."@, s.webhook_publish_total, m, Some(("result"@, "ok"@)))
        + counter_lines("webhook_publish_failed_total"@, "Total webhook publish failures."@, s.webhook_publish_failed_total, m, Some(("result"@, "error"@)))
        + counter_lines("rabbitmq_replay_total"@, "Total RabbitMQ replayed messages."@, s.rabbitmq_replay_total, m, None)
        + counter_lines("replay_api_requests_total"@, "Total replay API requests."@, s.replay_api_requests_total, m, None)
        + counter_lines("replay_api_denied_total"@, "Total replay API denied requests."@, s.replay_api_denied_total, m, Some(("result"@, "error"@)))
        + counter_lines("replay_api_rate_limited_total"@, "Total replay API rate limited requests."@, s.replay_api_rate_limited_total, m, Some(("result"@, "rate_limited"@)))
        + counter_lines("replay_api_idempotent_total"@, "Total replay API idempotent reuses."@, s.replay_api_idempotent_total, m, None)
        + counter_lines("replay_api_success_total"@, "Total replay API successes."@, s.replay_api_success_total, m, Some(("result"@, "ok"@)))
        + counter_lines("replay_api_errors_total"@, "Total replay API errors."@, s.replay_api_errors_total, m, Some(("result"@, "error"@)))
        + counter_lines("backpressure_dropped_total"@, "Total messages dropped due to backpressure."@, s.backpressure_dropped_total, m, Some(("result"@, "dropped"@)))
        + counter_lines("backpressure_closed_total"@, "Total connections closed due to backpressure."@, s.backpressure_closed_total, m, None)
        + counter_lines("backpressure_buffered_total"@, "Total messages buffered due to backpressure."@, s.backpressure_buffered_total, m, None)
}

/// The exposition text of a snapshot for the given mode.
pub open spec fn exposition(s: MetricsSnapshot, mode: Seq<char>) -> Seq<char> {
    lines_text(exposition_lines(s, mode))
}

/// The names of all counters, in exposition order.
pub open spec fn counter_names() -> Seq<Seq<char>> {
    seq![
        "ws_connections_total"@,
        "ws_disconnects_total"@,
        "ws_messages_total"@,
        "ws_rate_limited_total"@,
        "publish_total"@,
        "broker_publish_total"@,
        "webhook_publish_total"@,
        "webhook_publish_failed_total"@,
        "rabbitmq_replay_total"@,
        "replay_api_requests_total"@,
        "replay_api_denied_total"@,
        "replay_api_rate_limited_total"@,
        "replay_api_idempotent_total"@,
        "replay_api_success_total"@,
        "replay_api_errors_total"@,
        "backpressure_dropped_total"@,
        "backpressure_closed_total"@,
        "backpressure_buffered_total"@,
    ]
}

/// The label value for `mode`: `core`, `terminator`, anything else `unknown`.
pub fn mode_label_of(mode: &str) -> (r: &'static str)
    ensures
        r@ == mode_label(mode@),
{
    if str_eq(mode, "core") {
        "core"
    } else if str_eq(mode, "terminator") {
        "terminator"
    } else {
        "unknown"
    }
}

impl MetricsSnapshot {
    /// A snapshot in which every counter is zero.
    pub fn zero() -> (r: MetricsSnapshot)
        ensures
            r == MetricsSnapshot::zero_spec(),
    {
        MetricsSnapshot {
            ws_connections_total: 0,
            ws_disconnects_total: 0,
            ws_messages_total: 0,
            ws_messages_out_total: 0,
            ws_rate_limited_total: 0,
            publish_total: 0,
            broker_publish_total: 0,
            webhook_publish_total: 0,
            webhook_publish_failed_total: 0,
            rabbitmq_replay_total: 0,
            replay_api_requests_total: 0,
            replay_api_denied_total: 0,
            replay_api_rate_limited_total: 0,
            replay_api_idempotent_total: 0,
            replay_api_success_total: 0,
            replay_api_errors_total: 0,
            backpressure_dropped_total: 0,
            backpressure_closed_total: 0,
            backpressure_buffered_total: 0,
        }
    }

    /// The all-zero snapshot.
    pub open spec fn zero_spec() -> MetricsSnapshot {
        MetricsSnapshot {
            ws_connections_total: 0,
            ws_disconnects_total: 0,
            ws_messages_total: 0,
            ws_messages_out_total: 0,
            ws_rate_limited_total: 0,
            publish_total: 0,
            broker_publish_total: 0,
            webhook_publish_total: 0,
            webhook_publish_failed_total: 0,
            rabbitmq_replay_total: 0,
            replay_api_requests_total: 0,
            replay_api_denied_total: 0,
            replay_api_rate_limited_total: 0,
            replay_api_idempotent_total: 0,
            replay_api_success_total: 0,
            replay_api_errors_total: 0,
            backpressure_dropped_total: 0,
            backpressure_closed_total: 0,
            backpressure_buffered_total: 0,
        }
    }

    /// The exposition text of this snapshot.
    #[verifier::rlimit(50)]
    pub fn to_prometheus(&self, mode: &str) -> (r: String)
        ensures
            r@ == exposition(*self, mode@),
    {
        let m = mode_label_of(mode);
        let mut lines: Vec<String> = Vec::new();
        assert(lines.deep_view() =~= Seq::<Seq<char>>::empty());
        push_counter(&mut lines, "ws_connections_total", "Total accepted websocket connections.", self.ws_connections_total, m, None);
        push_counter(&mut lines, "ws_disconnects_total", "Total websocket disconnects.", self.ws_disconnects_total, m, None);
        push_counter(&mut lines, "ws_messages_total", "Total websocket messages received/sent.", self.ws_messages_total, m, Some(("direction", "in")));
        push_labelled(
            &mut lines,
            "ws_messages_total",
            m,
            Some(("direction", "out")),
            self.ws_messages_out_total,
        );
        push_counter(&mut lines, "ws_rate_limited_total", "Total websocket rate limited messages.", self.ws_rate_limited_total, m, Some(("result", "rate_limited")));
        push_counter(&mut lines, "publish_total", "Total publish requests.", self.publish_total, m, None);
        push_counter(&mut lines, "broker_publish_total", "Total broker publish attempts.", self.broker_publish_total, m, None);
        push_counter(&mut lines, "webhook_publish_total", "Total webhook publish successes.", self.webhook_publish_total, m, Some(("result", "ok")));
        push_counter(&mut lines, "webhook_publish_failed_total", "Total webhook publish failures.", self.webhook_publish_failed_total, m, Some(("result", "error")));
        push_counter(&mut lines, "rabbitmq_replay_total", "Total RabbitMQ replayed messages.", self.rabbitmq_replay_total, m, None);
        push_counter(&mut lines, "replay_api_requests_total", "Total replay API requests.", self.replay_api_requests_total, m, None);
        push_counter(&mut lines, "replay_api_denied_total", "Total replay API denied requests.", self.replay_api_denied_total, m, Some(("result", "error")));
        push_counter(&mut lines, "replay_api_rate_limited_total", "Total replay API rate limited requests.", self.replay_api_rate_limited_total, m, Some(("result", "rate_limited")));
        push_counter(&mut lines, "replay_api_idempotent_total", "Total replay API idempotent reuses.", self.replay_api_idempotent_total, m, None);
        push_counter(&mut lines, "replay_api_success_total", "Total replay API successes.", self.replay_api_success_total, m, Some(("result", "ok")));
        push_counter(&mut lines, "replay_api_errors_total", "Total replay API errors.", self.replay_api_errors_total, m, Some(("result", "error")));
        push_counter(&mut lines, "backpressure_dropped_total", "Total messages dropped due to backpressure.", self.backpressure_dropped_total, m, Some(("result", "dropped")));
        push_counter(&mut lines, "backpressure_closed_total", "Total connections closed due to backpressure.", self.backpressure_closed_total, m, None);
        push_counter(&mut lines, "backpressure_buffered_total", "Total messages buffered due to backpressure.", self.backpressure_buffered_total, m, None);
        proof {
            assert(lines.deep_view() =~= exposition_lines(*self, mode@));
        }
        join_lines(&lines)
    }
}

/// The counters of the gateway, shared between tasks.
pub struct Metrics {
    pub ws_connections_total: AtomicU64,
    pub ws_disconnects_total: AtomicU64,
    pub ws_messages_total: AtomicU64,
    pub ws_messages_out_total: AtomicU64,
    pub ws_rate_limited_total: AtomicU64,
    pub publish_total: AtomicU64,
    pub broker_publish_total: AtomicU64,
    pub webhook_publish_total: AtomicU64,
    pub webhook_publish_failed_total: AtomicU64,
    pub rabbitmq_replay_total: AtomicU64,
    pub replay_api_requests_total: AtomicU64,
    pub replay_api_denied_total: AtomicU64,
    pub replay_api_rate_limited_total: AtomicU64,
    pub replay_api_idempotent_total: AtomicU64,
    pub replay_api_success_total: AtomicU64,
    pub replay_api_errors_total: AtomicU64,
    pub backpressure_dropped_total: AtomicU64,
    pub backpressure_closed_total: AtomicU64,
    pub backpressure_buffered_total: AtomicU64,
}

impl Metrics {
    /// All counters at zero.
    pub fn new() -> Metrics {
        Metrics {
            ws_connections_total: AtomicU64::new(0),
            ws_disconnects_total: AtomicU64::new(0),
            ws_messages_total: AtomicU64::new(0),
            ws_messages_out_total: AtomicU64::new(0),
            ws_rate_limited_total: AtomicU64::new(0),
            publish_total: AtomicU64::new(0),
            broker_publish_total: AtomicU64::new(0),
            webhook_publish_total: AtomicU64::new(0),
            webhook_publish_failed_total: AtomicU64::new(0),
            rabbitmq_replay_total: AtomicU64::new(0),
            replay_api_requests_total: AtomicU64::new(0),
            replay_api_denied_total: AtomicU64::new(0),
            replay_api_rate_limited_total: AtomicU64::new(0),
            replay_api_idempotent_total: AtomicU64::new(0),
            replay_api_success_total: AtomicU64::new(0),
            replay_api_errors_total: AtomicU64::new(0),
            backpressure_dropped_total: AtomicU64::new(0),
            backpressure_closed_total: AtomicU64::new(0),
            backpressure_buffered_total: AtomicU64::new(0),
        }
    }

    /// Adds `amount` to a counter (relaxed ordering, wrapping on overflow).
    pub fn inc(counter: &AtomicU64, amount: u64) {
        counter.fetch_add(amount, Ordering::Relaxed);
    }

    /// Reads every counter.
    pub fn snapshot(&self) -> MetricsSnapshot {
        MetricsSnapshot {
            ws_connections_total: self.ws_connections_total.load(Ordering::Relaxed),
            ws_disconnects_total: self.ws_disconnects_total.load(Ordering::Relaxed),
            ws_messages_total: self.ws_messages_total.load(Ordering::Relaxed),
            ws_messages_out_total: self.ws_messages_out_total.load(Ordering::Relaxed),
            ws_rate_limited_total: self.ws_rate_limited_total.load(Ordering::Relaxed),
            publish_total: self.publish_total.load(Ordering::Relaxed),
            broker_publish_total: self.broker_publish_total.load(Ordering::Relaxed),
            webhook_publish_total: self.webhook_publish_total.load(Ordering::Relaxed),
            webhook_publish_failed_total: self.webhook_publish_failed_total.load(Ordering::Relaxed),
            rabbitmq_replay_total: self.rabbitmq_replay_total.load(Ordering::Relaxed),
            replay_api_requests_total: self.replay_api_requests_total.load(Ordering::Relaxed),
            replay_api_denied_total: self.replay_api_denied_total.load(Ordering::Relaxed),
            replay_api_rate_limited_total: self.replay_api_rate_limited_total.load(Ordering::Relaxed),
            replay_api_idempotent_total: self.replay_api_idempotent_total.load(Ordering::Relaxed),
            replay_api_success_total: self.replay_api_success_total.load(Ordering::Relaxed),
            replay_api_errors_total: self.replay_api_errors_total.load(Ordering::Relaxed),
            backpressure_dropped_total: self.backpressure_dropped_total.load(Ordering::Relaxed),
            backpressure_closed_total: self.backpressure_closed_total.load(Ordering::Relaxed),
            backpressure_buffered_total: self.backpressure_buffered_total.load(Ordering::Relaxed),
        }
    }

    /// The exposition text of the counters as they are read now.
    pub fn to_prometheus(&self, mode: &str) -> (r: String)
        ensures
            exists|s: MetricsSnapshot| r@ == exposition(s, mode@),
    {
        self.snapshot().to_prometheus(mode)
    }
}

/// The unlabelled sample line of a counter at zero: `name 0`.
pub open spec fn zero_sample(name: Seq<char>) -> Seq<char> {
    name + seq![' ', '0']
}

/// Counters that were never incremented appear in the exposition, each
/// with an unlabelled sample line `name 0`, whatever the mode.
pub proof fn fresh_exposition_lists_every_counter_at_zero(mode: Seq<char>)
    ensures
        forall|i: int|
            0 <= i < counter_names().len() ==> exposition_lines(
                MetricsSnapshot::zero_spec(),
                mode,
            ).contains(#[trigger] zero_sample(counter_names()[i])),
{
    let ls = exposition_lines(MetricsSnapshot::zero_spec(), mode);
    assert(nat_decimal(0) =~= seq!['0']);
    assert(counter_names().len() == 18);
    assert forall|i: int| 0 <= i < counter_names().len() implies ls.contains(
        #[trigger] zero_sample(counter_names()[i]),
    ) by {
        if i == 0 {
            assert(ls[2] == zero_sample(counter_names()[i]));
        } else if i == 1 {
            assert(ls[6] == zero_sample(counter_names()[i]));
        } else if i == 2 {
            assert(ls[10] == zero_sample(counter_names()[i]));
        } else if i == 3 {
            assert(ls[15] == zero_sample(counter_names()[i]));
        } else if i == 4 {
            assert(ls[19] == zero_sample(counter_names()[i]));
        } else if i == 5 {
            assert(ls[23] == zero_sample(counter_names()[i]));
        } else if i == 6 {
            assert(ls[27] == zero_sample(counter_names()[i]));
        } else if i == 7 {
            assert(ls[31] == zero_sample(counter_names()[i]));
        } else if i == 8 {
            assert(ls[35] == zero_sample(counter_names()[i]));
        } else if i == 9 {
            assert(ls[39] == zero_sample(counter_names()[i]));
        } else if i == 10 {
            assert(ls[43] == zero_sample(counter_names()[i]));
        } else if i == 11 {
            assert(ls[47] == zero_sample(counter_names()[i]));
        } else if i == 12 {
            assert(ls[51] == zero_sample(counter_names()[i]));
        } else if i == 13 {
            assert(ls[55] == zero_sample(counter_names()[i]));
        } else if i == 14 {
            assert(ls[59] == zero_sample(counter_names()[i]));
        } else if i == 15 {
            assert(ls[63] == zero_sample(counter_names()[i]));
        } else if i == 16 {
            assert(ls[67] == zero_sample(counter_names()[i]));
        } else if i == 17 {
            assert(ls[71] == zero_sample(counter_names()[i]));
        } else {
            assert(false);
        }
    }
}

} // verus!
