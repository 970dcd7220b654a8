use rust_gateway::connections::{event_envelope, ConnectionInfo, ConnectionManager, OutboundFrame};
use tokio::sync::mpsc::{unbounded_channel, UnboundedReceiver};

fn info(id: &str, user: &str, subjects: &[&str]) -> ConnectionInfo {
    ConnectionInfo {
        connection_id: id.to_string(),
        user_id: user.to_string(),
        subjects: subjects.iter().map(|x| x.to_string()).collect(),
        connected_at: 1_700_000_000,
        traceparent: None,
    }
}

fn add(m: &mut ConnectionManager, id: &str, user: &str, subjects: &[&str]) -> UnboundedReceiver<OutboundFrame> {
    let (tx, rx) = unbounded_channel::<OutboundFrame>();
    m.add(info(id, user, subjects), tx);
    rx
}

fn text(t: &str) -> OutboundFrame {
    OutboundFrame::Text(t.to_string())
}

fn ids(list: &[ConnectionInfo]) -> Vec<String> {
    list.iter().map(|i| i.connection_id.clone()).collect()
}

#[test]
fn subject_fan_out_scenario() {
    let mut m = ConnectionManager::new();
    let mut rx1 = add(&mut m, "c1", "u1", &["room.a", "room.b"]);
    let mut rx2 = add(&mut m, "c2", "u2", &["room.b"]);
    let sent = m.send_to_subjects(&vec!["room.b".to_string()], "{\"x\":1}").0;
    assert_eq!(sent, 2);
    let expected = "{\"type\":\"event\",\"payload\":{\"x\":1}}";
    assert_eq!(rx1.try_recv().unwrap(), text(expected));
    assert_eq!(rx2.try_recv().unwrap(), text(expected));
    assert_eq!(m.subject_targets(&vec!["room.b".to_string()]), vec![0, 1]);
    assert_eq!(m.subject_targets(&vec!["room.a".to_string()]), vec![0]);
    assert!(rx1.try_recv().is_err());
    let parsed: serde_json::Value = serde_json::from_str(expected).unwrap();
    assert_eq!(parsed["type"], "event");
    assert_eq!(parsed["payload"]["x"], 1);
}

#[test]
fn fan_out_sends_once_per_connection() {
    let mut m = ConnectionManager::new();
    let mut rx1 = add(&mut m, "c1", "u1", &["a", "b", "a"]);
    let _rx2 = add(&mut m, "c2", "u2", &["c"]);
    let sent = m.send_to_subjects(&vec!["a".to_string(), "b".to_string(), "zzz".to_string()], "1").0;
    assert_eq!(sent, 1);
    assert_eq!(rx1.try_recv().unwrap(), text("{\"type\":\"event\",\"payload\":1}"));
    assert!(rx1.try_recv().is_err());
    assert_eq!(m.send_to_subjects(&vec!["nobody".to_string()], "1").0, 0);
}

#[test]
fn closed_queues_do_not_count() {
    let mut m = ConnectionManager::new();
    let rx1 = add(&mut m, "c1", "u1", &["a"]);
    drop(rx1);
    assert_eq!(m.send_to_subjects(&vec!["a".to_string()], "{}").0, 0);
    assert!(!m.send_message("c1", text("hi")).0);
    assert!(!m.send_message("missing", text("hi")).0);
}

#[test]
fn send_message_reaches_the_queue() {
    let mut m = ConnectionManager::new();
    let mut rx = add(&mut m, "c1", "u1", &[]);
    assert!(m.send_message("c1", text("hello")).0);
    assert_eq!(rx.try_recv().unwrap(), text("hello"));
    assert!(m.send_message("c1", OutboundFrame::Ping(vec![1, 2])).0);
    assert_eq!(rx.try_recv().unwrap(), OutboundFrame::Ping(vec![1, 2]));
    assert!(m.send_message("c1", OutboundFrame::Close(None)).0);
    assert_eq!(rx.try_recv().unwrap(), OutboundFrame::Close(None));
}

#[test]
fn index_follows_adds_and_removes() {
    let mut m = ConnectionManager::new();
    let _r1 = add(&mut m, "c1", "u1", &["a", "b"]);
    let _r2 = add(&mut m, "c2", "u2", &["b"]);
    let _r3 = add(&mut m, "c3", "u1", &["c"]);
    assert_eq!(ids(&m.list_connections(Some("b".to_string()), None)), vec!["c1", "c2"]);
    let removed = m.remove("c1").unwrap();
    assert_eq!(removed.subjects, vec!["a", "b"]);
    assert!(m.remove("c1").is_none());
    assert_eq!(ids(&m.list_connections(Some("b".to_string()), None)), vec!["c2"]);
    assert_eq!(ids(&m.list_connections(Some("a".to_string()), None)), Vec::<String>::new());
    assert_eq!(ids(&m.list_connections(None, Some("u1".to_string()))), vec!["c3"]);
    assert_eq!(ids(&m.list_connections(None, None)), vec!["c2", "c3"]);
}

#[test]
fn re_adding_an_id_replaces_its_subscriptions() {
    let mut m = ConnectionManager::new();
    let mut old_rx = add(&mut m, "c1", "u1", &["a"]);
    let mut new_rx = add(&mut m, "c1", "u1", &["b"]);
    assert_eq!(m.send_to_subjects(&vec!["a".to_string()], "1").0, 0);
    assert_eq!(m.send_to_subjects(&vec!["b".to_string()], "2").0, 1);
    assert_eq!(new_rx.try_recv().unwrap(), text("{\"type\":\"event\",\"payload\":2}"));
    assert!(old_rx.try_recv().is_err());
    assert_eq!(m.list_connections(None, None).len(), 1);
}

#[test]
fn copies_keep_every_field() {
    let mut i = info("c9", "u9", &["x"]);
    i.traceparent = Some("00-abc-01".to_string());
    let c = i.copy();
    assert_eq!(c.connection_id, "c9");
    assert_eq!(c.user_id, "u9");
    assert_eq!(c.subjects, vec!["x"]);
    assert_eq!(c.connected_at, 1_700_000_000);
    assert_eq!(c.traceparent.as_deref(), Some("00-abc-01"));
}

#[test]
fn envelope_wraps_payload() {
    assert_eq!(event_envelope("null"), "{\"type\":\"event\",\"payload\":null}");
}
