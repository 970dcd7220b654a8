use rust_gateway::json::JsonValue;
use rust_gateway::replay::{
    audit_log, idempotency_key, idempotency_store_command, normalize_replay_key, payload_limit,
    rate_limit_identity, rate_limit_key, replay_admission, shared_window_count, stored_result,
    DrainAction, DrainEvent, DrainState, InMemoryIdempotencyStore, InMemoryRateLimiter,
    ReplayDecision, ReplayState,
};
use sha2::{Digest, Sha256};

fn drain(queued: usize, limit: i64, fail_at: Option<usize>) -> (i64, usize, usize, usize) {
    let mut state = DrainState::new(limit);
    let mut queue = queued;
    let mut published = 0;
    let mut requeued = 0;
    let mut action = state.step(DrainEvent::Start);
    loop {
        action = match action {
            DrainAction::Fetch => {
                if queue > 0 {
                    queue -= 1;
                    state.step(DrainEvent::Fetched(true))
                } else {
                    state.step(DrainEvent::Fetched(false))
                }
            }
            DrainAction::Publish => {
                let ok = fail_at != Some(published);
                if ok {
                    published += 1;
                }
                state.step(DrainEvent::Published(ok))
            }
            DrainAction::Ack => state.step(DrainEvent::Acked),
            DrainAction::Nack => {
                queue += 1;
                requeued += 1;
                state.step(DrainEvent::Nacked)
            }
            DrainAction::Finish => break,
        };
    }
    (state.replayed, published, queue, requeued)
}

#[test]
fn dlq_drain_scenario() {
    assert_eq!(drain(3, 10, None), (3, 3, 0, 0));
}

#[test]
fn drain_stops_at_limit_and_on_publish_failure() {
    assert_eq!(drain(5, 2, None), (2, 2, 3, 0));
    assert_eq!(drain(5, 10, Some(1)), (1, 1, 4, 1));
    assert_eq!(drain(5, 0, None), (0, 0, 5, 0));
}

#[test]
fn idempotent_reuse_scenario() {
    let mut store = InMemoryIdempotencyStore::new();
    let key = normalize_replay_key(" req-42 ");
    assert_eq!(replay_admission(true, store.get(&key, 1_000)), ReplayDecision::Drain);
    store.set(&key, 3, 60, 1_000);
    let prior = store.get(&key, 30_000);
    assert_eq!(prior, Some(3));
    assert_eq!(replay_admission(true, prior), ReplayDecision::Reuse(3));
    assert_eq!(replay_admission(false, prior), ReplayDecision::RateLimited);
}

#[test]
fn stored_results_expire_after_ttl() {
    let mut store = InMemoryIdempotencyStore::new();
    store.set("k", 7, 10, 1_000);
    assert_eq!(store.get("k", 11_000), Some(7));
    assert_eq!(store.get("k", 11_001), None);
    assert_eq!(store.get("k", 1_000), None);
    store.set("forever", 9, 0, 1_000);
    assert_eq!(store.get("forever", i64::MAX), Some(9));
    store.set("far", 1, i64::MAX, 5);
    assert_eq!(store.get("far", i64::MAX), Some(1));
}

#[test]
fn replay_keys_normalize_once() {
    let short = normalize_replay_key("  abc \t");
    assert_eq!(short, "abc");
    assert_eq!(normalize_replay_key(&short), short);
    let long = format!(" {} ", "x".repeat(129));
    let hashed = normalize_replay_key(&long);
    assert_eq!(hashed, hex::encode(Sha256::digest("x".repeat(129).as_bytes())));
    assert_eq!(hashed.len(), 64);
    assert_eq!(normalize_replay_key(&hashed), hashed);
    let edge = "y".repeat(128);
    assert_eq!(normalize_replay_key(&edge), edge);
}

#[test]
fn memory_rate_limiter_uses_a_sliding_window() {
    let mut rl = InMemoryRateLimiter::new();
    assert!(rl.allow("id", 2, 1, 0));
    assert!(rl.allow("id", 2, 1, 100));
    assert!(!rl.allow("id", 2, 1, 200));
    assert!(rl.allow("other", 2, 1, 200));
    assert!(rl.allow("id", 2, 1, 1_101));
    assert!(rl.allow("id", 0, 1, 1_102));
    assert!(rl.allow("id", -1, 1, 1_103));
    assert!(rl.allow("w", 1, 0, 0));
    assert!(!rl.allow("w", 1, 0, 999));
    assert!(rl.allow("w", 1, 0, 1_001));
}

#[test]
fn identity_modes() {
    assert_eq!(rate_limit_identity("api_key", "k", "1.2.3.4"), "k");
    assert_eq!(rate_limit_identity("ip", "k", "1.2.3.4"), "1.2.3.4");
    assert_eq!(rate_limit_identity("api_key_and_ip", "k", "1.2.3.4"), "k:1.2.3.4");
    assert_eq!(rate_limit_identity("api_key_and_ip", "", "1.2.3.4"), "1.2.3.4");
    assert_eq!(rate_limit_identity("", "k", "1.2.3.4"), "k");
    assert_eq!(rate_limit_identity("", "", "1.2.3.4"), "1.2.3.4");
}

#[test]
fn limits_read_from_payload() {
    let with = |v: JsonValue| JsonValue::Object(vec![("limit".to_string(), v)]);
    assert_eq!(payload_limit(&with(JsonValue::Int(5))), Some(5));
    assert_eq!(payload_limit(&with(JsonValue::Str("-12".to_string()))), Some(-12));
    assert_eq!(payload_limit(&with(JsonValue::Str("+7".to_string()))), Some(7));
    assert_eq!(payload_limit(&with(JsonValue::Str(" 7".to_string()))), None);
    assert_eq!(payload_limit(&with(JsonValue::Str("9223372036854775808".to_string()))), None);
    assert_eq!(payload_limit(&with(JsonValue::UInt(u64::MAX))), None);
    assert_eq!(payload_limit(&with(JsonValue::Number("2.5".to_string()))), None);
    assert_eq!(payload_limit(&JsonValue::Object(vec![])), None);
    assert_eq!(payload_limit(&JsonValue::Null), None);
}

#[test]
fn shared_store_keys_and_commands() {
    assert_eq!(rate_limit_key("rl:", "k", 125, 60), "rl:k:2");
    assert_eq!(rate_limit_key("rl:", "k", 125, 0), "rl:k:125");
    let first = shared_window_count(1, 5);
    assert!(first.admitted && first.set_expiry);
    let over = shared_window_count(6, 5);
    assert!(!over.admitted && !over.set_expiry);
    assert_eq!(idempotency_key("idem:", "abc"), "idem:abc");
    assert_eq!(idempotency_store_command("idem:abc", 3, 60), vec!["SETEX", "idem:abc", "60", "3"]);
    assert_eq!(idempotency_store_command("idem:abc", -3, 0), vec!["SET", "idem:abc", "-3"]);
    assert_eq!(stored_result(Some("42".to_string())), Some(42));
    assert_eq!(stored_result(Some("4x".to_string())), None);
    assert_eq!(stored_result(None), None);
}

#[test]
fn backends_are_chosen_by_strategy_and_address() {
    let s = ReplayState::new("redis", "redis://x", "memory", "redis://y");
    assert!(s.shared_rate_limit);
    assert!(!s.shared_idempotency);
    let t = ReplayState::new("redis", "", "redis", "redis://y");
    assert!(!t.shared_rate_limit);
    assert!(t.shared_idempotency);
}

#[test]
fn audit_records_only_when_enabled() {
    assert!(audit_log(false, "replay", "r1", "1.2.3.4", Some("k"), None).is_none());
    let rec = audit_log(true, "replay", "r1", "1.2.3.4", None, Some("limit=3")).unwrap();
    assert_eq!(rec.event, "replay");
    assert_eq!(rec.request_id, "r1");
    assert_eq!(rec.caller_ip, "1.2.3.4");
    assert_eq!(rec.api_key, "");
    assert_eq!(rec.extra.as_deref(), Some("limit=3"));
}
