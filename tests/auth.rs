use jsonwebtoken::jwk::Jwk;
use jsonwebtoken::{encode, Algorithm, EncodingKey, Header};
use rust_gateway::auth::{
    find_key, key_id_of, key_material, key_source, parse_algorithm, token_key_id,
    validation_settings, verify_with_jwk, verify_with_static_key, AuthError, JwtAlgorithm,
    JwtConfig, KeyMaterial, KeySource, MAX_LEEWAY,
};
use serde_json::Value;
use std::time::{SystemTime, UNIX_EPOCH};

fn config(alg: JwtAlgorithm, key: &str, jwks: &str) -> JwtConfig {
    JwtConfig {
        alg,
        issuer: String::new(),
        audience: String::new(),
        leeway: 0,
        jwks_url: jwks.to_string(),
        public_key: key.to_string(),
    }
}

fn token(secret: &[u8], kid: Option<&str>, exp_offset: i64, iss: Option<&str>) -> String {
    token_nbf(secret, kid, exp_offset, iss, None)
}

fn token_nbf(secret: &[u8], kid: Option<&str>, exp_offset: i64, iss: Option<&str>, nbf_offset: Option<i64>) -> String {
    let now = SystemTime::now().duration_since(UNIX_EPOCH).unwrap().as_secs() as i64;
    let mut claims = serde_json::Map::new();
    claims.insert("sub".to_string(), Value::String("user-1".to_string()));
    claims.insert("exp".to_string(), Value::from(now + exp_offset));
    if let Some(n) = nbf_offset {
        claims.insert("nbf".to_string(), Value::from(now + n));
    }
    if let Some(i) = iss {
        claims.insert("iss".to_string(), Value::String(i.to_string()));
    }
    let mut header = Header::new(Algorithm::HS256);
    header.kid = kid.map(|k| k.to_string());
    encode(&header, &Value::Object(claims), &EncodingKey::from_secret(secret)).unwrap()
}

#[test]
fn algorithm_names() {
    assert_eq!(parse_algorithm("HS256"), JwtAlgorithm::HS256);
    assert_eq!(parse_algorithm("HS512"), JwtAlgorithm::HS512);
    assert_eq!(parse_algorithm("RS384"), JwtAlgorithm::RS384);
    assert_eq!(parse_algorithm("hs256"), JwtAlgorithm::RS256);
    assert_eq!(parse_algorithm(""), JwtAlgorithm::RS256);
}

#[test]
fn key_source_selection() {
    assert_eq!(key_source(&config(JwtAlgorithm::HS256, "s", "https://k")), KeySource::Jwks);
    assert_eq!(key_source(&config(JwtAlgorithm::HS256, "s", "")), KeySource::StaticKey);
    assert_eq!(key_source(&config(JwtAlgorithm::HS256, "", "")), KeySource::Missing);
}

#[test]
fn static_secret_verifies_claims() {
    let cfg = config(JwtAlgorithm::HS256, "secret", "");
    let claims = verify_with_static_key(&cfg, &token(b"secret", None, 3600, None)).unwrap();
    assert_eq!(claims["sub"], "user-1");
    assert_eq!(verify_with_static_key(&cfg, &token(b"other", None, 3600, None)).unwrap_err(), AuthError::InvalidToken);
    assert_eq!(verify_with_static_key(&cfg, &token(b"secret", None, -3600, None)).unwrap_err(), AuthError::InvalidToken);
    assert_eq!(verify_with_static_key(&cfg, "not-a-token").unwrap_err(), AuthError::InvalidToken);
}

#[test]
fn issuer_is_checked_when_configured() {
    let mut cfg = config(JwtAlgorithm::HS256, "secret", "");
    cfg.issuer = "gw".to_string();
    assert!(verify_with_static_key(&cfg, &token(b"secret", None, 3600, Some("gw"))).is_ok());
    assert_eq!(verify_with_static_key(&cfg, &token(b"secret", None, 3600, Some("x"))).unwrap_err(), AuthError::InvalidToken);
}

#[test]
fn missing_key_is_a_config_error() {
    let cfg = config(JwtAlgorithm::HS256, "", "");
    assert_eq!(verify_with_static_key(&cfg, "a.b.c").unwrap_err(), AuthError::ConfigMissing);
}

#[test]
fn bad_pem_is_invalid() {
    let cfg = config(JwtAlgorithm::RS256, "not a pem", "");
    assert_eq!(verify_with_static_key(&cfg, "a.b.c").unwrap_err(), AuthError::InvalidToken);
}

#[test]
fn header_key_ids() {
    assert_eq!(token_key_id(&token(b"s", Some("k1"), 60, None)).unwrap(), "k1");
    assert_eq!(token_key_id(&token(b"s", None, 60, None)).unwrap_err(), AuthError::InvalidToken);
    assert_eq!(token_key_id("garbage").unwrap_err(), AuthError::InvalidToken);
    assert_eq!(key_id_of(Some(Some("z".to_string()))).unwrap(), "z");
    assert_eq!(key_id_of(None).unwrap_err(), AuthError::InvalidToken);
}

#[test]
fn keys_are_found_by_id() {
    let ids = vec![None, Some("a".to_string()), Some("b".to_string()), Some("b".to_string())];
    assert_eq!(find_key(&ids, "b"), Some(2));
    assert_eq!(find_key(&ids, "a"), Some(1));
    assert_eq!(find_key(&ids, "c"), None);
}

#[test]
fn jwk_key_verifies_token() {
    let jwk: Jwk = serde_json::from_str("{\"kty\":\"oct\",\"k\":\"c2VjcmV0\",\"kid\":\"k1\",\"alg\":\"HS256\"}").unwrap();
    let cfg = config(JwtAlgorithm::HS256, "", "https://keys");
    let claims = verify_with_jwk(&cfg, &token(b"secret", Some("k1"), 3600, None), &jwk).unwrap();
    assert_eq!(claims["sub"], "user-1");
    assert_eq!(verify_with_jwk(&cfg, &token(b"nope", Some("k1"), 3600, None), &jwk).unwrap_err(), AuthError::InvalidToken);
}

#[test]
fn validation_settings_follow_config() {
    let mut cfg = config(JwtAlgorithm::HS384, "s", "");
    let plain = validation_settings(&cfg);
    assert_eq!(plain.alg, JwtAlgorithm::HS384);
    assert!(plain.issuer.is_none() && plain.audience.is_none() && plain.leeway.is_none());
    cfg.issuer = "gw".to_string();
    cfg.audience = "api".to_string();
    cfg.leeway = 30;
    let set = validation_settings(&cfg);
    assert_eq!(set.issuer.as_deref(), Some("gw"));
    assert_eq!(set.audience.as_deref(), Some("api"));
    assert_eq!(set.leeway, Some(30));
    cfg.leeway = i64::MAX;
    assert_eq!(validation_settings(&cfg).leeway, Some(MAX_LEEWAY));
    cfg.leeway = -5;
    assert_eq!(validation_settings(&cfg).leeway, None);
}

#[test]
fn key_material_by_algorithm() {
    match key_material(&config(JwtAlgorithm::HS256, "secret", "")) {
        KeyMaterial::Secret(b) => assert_eq!(b, b"secret".to_vec()),
        other => panic!("unexpected {:?}", other),
    }
    match key_material(&config(JwtAlgorithm::RS512, "pem", "")) {
        KeyMaterial::RsaPem(b) => assert_eq!(b, b"pem".to_vec()),
        other => panic!("unexpected {:?}", other),
    }
}

#[test]
fn not_before_is_checked() {
    let cfg = config(JwtAlgorithm::HS256, "secret", "");
    let early = token_nbf(b"secret", None, 7200, None, Some(3600));
    assert_eq!(verify_with_static_key(&cfg, &early).unwrap_err(), AuthError::InvalidToken);
    let ready = token_nbf(b"secret", None, 7200, None, Some(-10));
    assert!(verify_with_static_key(&cfg, &ready).is_ok());
}

#[test]
fn huge_leeway_is_capped() {
    let mut cfg = config(JwtAlgorithm::HS256, "secret", "");
    cfg.leeway = i64::MAX;
    assert!(verify_with_static_key(&cfg, &token(b"secret", None, -3600, None)).is_ok());
}
