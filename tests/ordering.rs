use rust_gateway::connections::ConnectionInfo;
use rust_gateway::json::{value_to_string, JsonValue};
use rust_gateway::ordering::{sanitize_key, OrderingConfig, OrderingService};
use sha1::{Digest, Sha1};

fn obj(members: Vec<(&str, JsonValue)>) -> JsonValue {
    JsonValue::Object(members.into_iter().map(|(k, v)| (k.to_string(), v)).collect())
}

fn s(text: &str) -> JsonValue {
    JsonValue::Str(text.to_string())
}

fn conn(subjects: &[&str], user: &str) -> ConnectionInfo {
    ConnectionInfo {
        connection_id: "c1".to_string(),
        user_id: user.to_string(),
        subjects: subjects.iter().map(|x| x.to_string()).collect(),
        connected_at: 0,
        traceparent: None,
    }
}

fn topic_config(max_len: usize) -> OrderingConfig {
    OrderingConfig::from_settings("topic", "t", "subject", "suffix", max_len)
}

#[test]
fn partition_suffix_scenario() {
    let svc = OrderingService::new();
    let cfg = topic_config(0);
    let data = obj(vec![("t", s("A/B C"))]);
    let key = svc.derive_ordering_key(&cfg, &conn(&[], "u"), &data);
    assert_eq!(key, "A/B C");
    let (stream, routing) = svc.apply_partition(&cfg, "s", "r", &key);
    assert_eq!(stream, "s.A_B_C");
    assert_eq!(routing, "r.A_B_C");
}

#[test]
fn topic_falls_back_to_type() {
    let svc = OrderingService::new();
    let cfg = topic_config(0);
    let data = obj(vec![("type", s("created")), ("meta", obj(vec![("x", s("y"))]))]);
    assert_eq!(svc.derive_ordering_key(&cfg, &conn(&[], "u"), &data), "created");
    let in_meta = obj(vec![("type", s("created")), ("meta", obj(vec![("t", JsonValue::Int(-7))]))]);
    assert_eq!(svc.derive_ordering_key(&cfg, &conn(&[], "u"), &in_meta), "-7");
    assert_eq!(svc.derive_ordering_key(&cfg, &conn(&[], "u"), &obj(vec![])), "");
}

#[test]
fn ordering_key_is_deterministic() {
    let svc = OrderingService::new();
    let cfg = topic_config(8);
    let data = obj(vec![("t", s("  orders/eu-west  "))]);
    let c = conn(&["a"], "u");
    let k1 = svc.derive_ordering_key(&cfg, &c, &data);
    let k2 = svc.derive_ordering_key(&cfg, &c, &data);
    assert_eq!(k1, k2);
    assert_eq!(svc.apply_partition(&cfg, "s", "r", &k1), svc.apply_partition(&cfg, "s", "r", &k2));
}

#[test]
fn partition_by_safe_key_is_stable() {
    let svc = OrderingService::new();
    let cfg = topic_config(0);
    let key = " a b/c ";
    let safe = svc.normalize_key(key, 0);
    assert_eq!(safe, "a_b_c");
    assert_eq!(svc.apply_partition(&cfg, "s", "r", &safe), svc.apply_partition(&cfg, "s", "r", key));
}

#[test]
fn normalize_key_twice_is_once() {
    let svc = OrderingService::new();
    for (raw, limit) in [("x y", 0usize), ("  héllo wörld ", 5), ("abcdefghij", 64), ("", 3), ("  ", 0), ("ab", 2)] {
        let once = svc.normalize_key(raw, limit);
        if limit == 0 || limit >= 40 || (!raw.trim().is_empty() && raw.trim().len() <= limit) {
            assert_eq!(svc.normalize_key(&once, limit), once);
        }
    }
}

#[test]
fn long_keys_are_replaced_by_their_sha1() {
    let svc = OrderingService::new();
    let raw = "  customer-123456789  ";
    let expected = hex::encode(Sha1::digest("customer-123456789".as_bytes()));
    assert_eq!(svc.normalize_key(raw, 10), expected);
    assert_eq!(expected.len(), 40);
    assert_eq!(svc.normalize_key(raw, 100), "customer-123456789");
    let blank = hex::encode(Sha1::digest("   ".as_bytes()));
    assert_eq!(svc.normalize_key("   ", 10), blank);
    assert_eq!(svc.normalize_key("   ", 0), blank);
}

#[test]
fn sanitize_replaces_unsafe_chars() {
    assert_eq!(sanitize_key("a.b_c:d-E9/é x"), "a.b_c:d-E9___x");
}

#[test]
fn partition_off_or_empty_key_keeps_inputs() {
    let svc = OrderingService::new();
    let off = OrderingConfig::from_settings("topic", "t", "subject", "none", 0);
    assert_eq!(svc.apply_partition(&off, "s", "r", "k"), ("s".to_string(), "r".to_string()));
    let on = topic_config(0);
    assert_eq!(svc.apply_partition(&on, "s", "r", ""), ("s".to_string(), "r".to_string()));
    let blank = hex::encode(Sha1::digest("   ".as_bytes()));
    assert_eq!(
        svc.apply_partition(&on, "s", "r", "   "),
        (format!("s.{}", blank), format!("r.{}", blank))
    );
    assert_eq!(svc.apply_partition(&on, "", "r", "k"), ("".to_string(), "r.k".to_string()));
}

#[test]
fn subject_strategy_order() {
    let svc = OrderingService::new();
    let by_subject = OrderingConfig::from_settings("subject", "t", "subject", "suffix", 0);
    let by_user = OrderingConfig::from_settings("subject", "t", "user", "suffix", 0);
    let c = conn(&["room.a", "room.b"], "u1");
    let direct = obj(vec![("subject", s("x")), ("subjects", JsonValue::Array(vec![s("y")]))]);
    assert_eq!(svc.derive_ordering_key(&by_subject, &c, &direct), "x");
    let listed = obj(vec![("subject", s("")), ("subjects", JsonValue::Array(vec![s("y")]))]);
    assert_eq!(svc.derive_ordering_key(&by_subject, &c, &listed), "y");
    let none = obj(vec![("subjects", JsonValue::Array(vec![]))]);
    assert_eq!(svc.derive_ordering_key(&by_subject, &c, &none), "room.a");
    assert_eq!(svc.derive_ordering_key(&by_user, &c, &none), "u1");
    assert_eq!(svc.derive_ordering_key(&by_subject, &conn(&[], "u2"), &none), "u2");
    let unset = OrderingConfig::from_settings("", "t", "subject", "suffix", 0);
    assert_eq!(svc.derive_ordering_key(&unset, &c, &direct), "");
}

#[test]
fn scalars_stringify_naturally() {
    assert_eq!(value_to_string(&JsonValue::Int(i64::MIN)), "-9223372036854775808");
    assert_eq!(value_to_string(&JsonValue::UInt(u64::MAX)), "18446744073709551615");
    assert_eq!(value_to_string(&JsonValue::Number("1.5".to_string())), "1.5");
    assert_eq!(value_to_string(&JsonValue::Bool(true)), "");
    assert_eq!(value_to_string(&JsonValue::Null), "");
    assert_eq!(value_to_string(&JsonValue::Array(vec![s("a")])), "");
}
