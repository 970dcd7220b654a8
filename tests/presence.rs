use rust_gateway::connections::ConnectionInfo;
use rust_gateway::presence::{
    parse_presence_strategy, refresh_queue_capacity, PresenceConfig, PresenceRefreshRequest,
    PresenceService, PresenceStrategy,
};

fn config(strategy: PresenceStrategy, ttl: i64, min_interval: i64) -> PresenceConfig {
    PresenceConfig {
        prefix: "p:".to_string(),
        strategy,
        ttl_seconds: ttl,
        heartbeat_seconds: 20,
        grace_seconds: 5,
        refresh_min_interval_seconds: min_interval,
    }
}

fn conn() -> ConnectionInfo {
    ConnectionInfo {
        connection_id: "c1".to_string(),
        user_id: "u1".to_string(),
        subjects: vec!["room.a".to_string(), "room \"b\"".to_string()],
        connected_at: 100,
        traceparent: None,
    }
}

fn cmd(parts: &[&str]) -> Vec<String> {
    parts.iter().map(|p| p.to_string()).collect()
}

#[test]
fn refreshes_within_interval_coalesce_to_one() {
    let mut svc = PresenceService::new(config(PresenceStrategy::Ttl, 60, 5));
    let req = PresenceRefreshRequest::from_info(&conn());
    let mut pipelines = 0;
    for i in 0..10 {
        let now = 1_000 + (i * 3) / 9;
        if svc.refresh_commands(&req, now).is_some() {
            pipelines += 1;
        }
    }
    assert_eq!(pipelines, 1);
    assert!(svc.refresh_commands(&req, 1_005).is_none());
    assert!(svc.refresh_commands(&req, 1_010).is_some());
}

#[test]
fn set_pipeline_writes_record_and_expiries() {
    let mut svc = PresenceService::new(config(PresenceStrategy::Ttl, 60, 5));
    let cmds = svc.set_commands(&conn(), 200);
    let subjects_json = serde_json::to_string(&conn().subjects).unwrap();
    assert_eq!(
        cmds,
        vec![
            cmd(&[
                "HSET", "p:conn:c1", "connection_id", "c1", "user_id", "u1", "subjects",
                &subjects_json, "connected_at", "100", "last_seen_at", "200",
            ]),
            cmd(&["EXPIRE", "p:conn:c1", "60"]),
            cmd(&["SADD", "p:user:u1", "c1"]),
            cmd(&["EXPIRE", "p:user:u1", "60"]),
            cmd(&["SADD", "p:subject:room.a", "c1"]),
            cmd(&["EXPIRE", "p:subject:room.a", "60"]),
            cmd(&["SADD", "p:subject:room \"b\"", "c1"]),
            cmd(&["EXPIRE", "p:subject:room \"b\"", "60"]),
        ]
    );
    assert_eq!(subjects_json, "[\"room.a\",\"room \\\"b\\\"\"]");
    let req = PresenceRefreshRequest::from_info(&conn());
    assert!(svc.refresh_commands(&req, 203).is_none());
}

#[test]
fn session_records_never_expire_nor_refresh() {
    let mut svc = PresenceService::new(config(PresenceStrategy::Session, 60, 0));
    assert_eq!(svc.effective_ttl(), 0);
    let cmds = svc.set_commands(&conn(), 5);
    assert_eq!(cmds.len(), 4);
    assert!(cmds.iter().all(|c| c[0] != "EXPIRE"));
    let req = PresenceRefreshRequest::from_info(&conn());
    assert!(svc.refresh_commands(&req, 6).is_none());
}

#[test]
fn effective_ttl_by_strategy() {
    assert_eq!(PresenceService::new(config(PresenceStrategy::Heartbeat, 60, 0)).effective_ttl(), 25);
    assert_eq!(PresenceService::new(config(PresenceStrategy::Ttl, -3, 0)).effective_ttl(), 0);
    assert_eq!(PresenceService::new(config(PresenceStrategy::Ttl, 42, 0)).effective_ttl(), 42);
    let mut neg = config(PresenceStrategy::Heartbeat, 0, 0);
    neg.heartbeat_seconds = -10;
    assert_eq!(PresenceService::new(neg).effective_ttl(), 0);
    assert_eq!(parse_presence_strategy("session"), PresenceStrategy::Session);
    assert_eq!(parse_presence_strategy("heartbeat"), PresenceStrategy::Heartbeat);
    assert_eq!(parse_presence_strategy("other"), PresenceStrategy::Ttl);
}

#[test]
fn refresh_and_remove_pipelines() {
    let mut svc = PresenceService::new(config(PresenceStrategy::Ttl, 30, 0));
    let req = PresenceRefreshRequest::from_info(&conn());
    let cmds = svc.refresh_commands(&req, 77).unwrap();
    assert_eq!(
        cmds,
        vec![
            cmd(&["HSET", "p:conn:c1", "last_seen_at", "77"]),
            cmd(&["EXPIRE", "p:conn:c1", "30"]),
            cmd(&["EXPIRE", "p:user:u1", "30"]),
            cmd(&["EXPIRE", "p:subject:room.a", "30"]),
            cmd(&["EXPIRE", "p:subject:room \"b\"", "30"]),
        ]
    );
    assert!(svc.refresh_commands(&req, 77).is_some());
    let gone = svc.remove_commands(&conn());
    assert_eq!(
        gone,
        vec![
            cmd(&["DEL", "p:conn:c1"]),
            cmd(&["SREM", "p:user:u1", "c1"]),
            cmd(&["SREM", "p:subject:room.a", "c1"]),
            cmd(&["SREM", "p:subject:room \"b\"", "c1"]),
        ]
    );
}

#[test]
fn removal_forgets_the_last_refresh() {
    let mut svc = PresenceService::new(config(PresenceStrategy::Ttl, 30, 10));
    let req = PresenceRefreshRequest::from_info(&conn());
    assert!(svc.refresh_commands(&req, 100).is_some());
    assert!(svc.refresh_commands(&req, 101).is_none());
    svc.remove_commands(&conn());
    assert!(svc.refresh_commands(&req, 102).is_some());
}

#[test]
fn queue_capacity_is_clamped() {
    assert_eq!(refresh_queue_capacity(0), 1);
    assert_eq!(refresh_queue_capacity(500), 500);
    assert_eq!(refresh_queue_capacity(1_000_000), 100_000);
}
