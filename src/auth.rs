//! Bearer token verification: algorithm and key source selection, and the
//! calls into jsonwebtoken that check signatures and claims.

use jsonwebtoken::jwk::Jwk;
use jsonwebtoken::{Algorithm, DecodingKey, Validation};
use vstd::prelude::*;

use crate::connections::opt_view;
use crate::text::str_eq;

verus! {

/// jsonwebtoken's `Validation`: the checks a token must pass, held opaque.
#[verifier::external_type_specification]
#[verifier::external_body]
pub struct ExValidation(Validation);

/// jsonwebtoken's `DecodingKey`: a verification key, held opaque.
#[verifier::external_type_specification]
#[verifier::external_body]
pub struct ExDecodingKey(DecodingKey);

/// jsonwebtoken's `Jwk`: one key of a key set, held opaque.
#[verifier::external_type_specification]
#[verifier::external_body]
pub struct ExJwk(Jwk);

/// serde_json's `Value`: the claims of a verified token, carried through.
#[verifier::external_type_specification]
#[verifier::external_body]
pub struct ExJsonValue(serde_json::Value);

/// Why a token was not accepted.
#[derive(PartialEq, Eq, Structural, Clone, Copy, Debug)]
pub enum AuthError {
    MissingToken,
    InvalidToken,
    ConfigMissing,
}

/// Signature algorithms a token may use.
#[derive(PartialEq, Eq, Structural, Clone, Copy, Debug)]
pub enum JwtAlgorithm {
    HS256,
    HS384,
    HS512,
    RS256,
    RS384,
    RS512,
}

/// The algorithm a configured name selects; `RS256` for unknown names.
pub open spec fn algorithm_named(name: Seq<char>) -> JwtAlgorithm {
    if name == "HS256"@ {
        JwtAlgorithm::HS256
    } else if name == "HS384"@ {
        JwtAlgorithm::HS384
    } else if name == "HS512"@ {
        JwtAlgorithm::HS512
    } else if name == "RS384"@ {
        JwtAlgorithm::RS384
    } else if name == "RS512"@ {
        JwtAlgorithm::RS512
    } else {
        JwtAlgorithm::RS256
    }
}

/// Reads a configured algorithm name (see `algorithm_named`).
pub fn parse_algorithm(name: &str) -> (r: JwtAlgorithm)
    ensures
        r == algorithm_named(name@),
{
    if str_eq(name, "HS256") {
        JwtAlgorithm::HS256
    } else if str_eq(name, "HS384") {
        JwtAlgorithm::HS384
    } else if str_eq(name, "HS512") {
        JwtAlgorithm::HS512
    } else if str_eq(name, "RS384") {
        JwtAlgorithm::RS384
    } else if str_eq(name, "RS512") {
        JwtAlgorithm::RS512
    } else {
        JwtAlgorithm::RS256
    }
}

/// Whether the algorithm uses a shared secret.
pub open spec fn hmac_alg(alg: JwtAlgorithm) -> bool {
    alg == JwtAlgorithm::HS256 || alg == JwtAlgorithm::HS384 || alg == JwtAlgorithm::HS512
}

/// Whether the algorithm uses a shared secret.
pub fn is_hmac(alg: JwtAlgorithm) -> (r: bool)
    ensures
        r == hmac_alg(alg),
{
    match alg {
        JwtAlgorithm::HS256 | JwtAlgorithm::HS384 | JwtAlgorithm::HS512 => true,
        _ => false,
    }
}

/// Settings of token verification.
#[derive(Debug)]
pub struct JwtConfig {
    pub alg: JwtAlgorithm,
    /// Required issuer; empty for none.
    pub issuer: String,
    /// Required audience; empty for none.
    pub audience: String,
    /// Clock leeway in seconds; zero or less keeps the default.
    pub leeway: i64,
    /// Address of a key set; empty for none.
    pub jwks_url: String,
    /// HMAC secret or RSA public key in PEM; empty for none.
    pub public_key: String,
}

/// Where verification keys come from.
#[derive(PartialEq, Eq, Structural, Clone, Copy, Debug)]
pub enum KeySource {
    /// A key set fetched from `jwks_url`, the key picked by the token's `kid`.
    Jwks,
    /// The configured secret or PEM key.
    StaticKey,
    /// None is configured.
    Missing,
}

/// A key set address wins over a static key; without either, none.
pub fn key_source(config: &JwtConfig) -> (r: KeySource)
    ensures
        r == if config.jwks_url@.len() > 0 {
            KeySource::Jwks
        } else if config.public_key@.len() > 0 {
            KeySource::StaticKey
        } else {
            KeySource::Missing
        },
{
    if !config.jwks_url.as_str().is_empty() {
        KeySource::Jwks
    } else if !config.public_key.as_str().is_empty() {
        KeySource::StaticKey
    } else {
        KeySource::Missing
    }
}

/// The `kid` of a token's header: none when the header cannot be read,
/// `Some(None)` when it has no `kid`.
pub uninterp spec fn header_kid(token: Seq<char>) -> Option<Option<Seq<char>>>;

/// Relies on `jsonwebtoken::decode_header`: reads the header of a compact
/// token without checking it; the result depends on the token alone.
#[verifier::external_body]
fn read_header_kid(token: &str) -> (r: Option<Option<String>>)
    ensures
        match r {
            Some(Some(k)) => header_kid(token@) == Some(Some(k@)),
            Some(None) => header_kid(token@) == Some(None::<Seq<char>>),
            None => header_kid(token@) is None,
        },
{
    jsonwebtoken::decode_header(token).ok().map(|h| h.kid)
}

/// Relies on `jsonwebtoken::Validation::new`: default checks for one algorithm.
#[verifier::external_body]
fn new_validation(alg: JwtAlgorithm) -> Validation {
    Validation::new(
        match alg {
            JwtAlgorithm::HS256 => Algorithm::HS256,
            JwtAlgorithm::HS384 => Algorithm::HS384,
            JwtAlgorithm::HS512 => Algorithm::HS512,
            JwtAlgorithm::RS256 => Algorithm::RS256,
            JwtAlgorithm::RS384 => Algorithm::RS384,
            JwtAlgorithm::RS512 => Algorithm::RS512,
        },
    )
}

/// Relies on `Validation::set_issuer`: the issuer a token must carry.
#[verifier::external_body]
fn require_issuer(v: &mut Validation, issuer: &str) {
    v.set_issuer(&[issuer])
}

/// Relies on `Validation::set_audience`: the audience a token must carry.
#[verifier::external_body]
fn require_audience(v: &mut Validation, audience: &str) {
    v.set_audience(&[audience])
}

/// Relies on the `leeway` field of `Validation`: seconds of clock leeway.
/// `decode` subtracts it from the current time, so it is kept below any
/// clock reading this century.
#[verifier::external_body]
fn set_leeway(v: &mut Validation, seconds: u64)
    requires
        seconds <= MAX_LEEWAY,
{
    v.leeway = seconds;
}

/// Relies on the `validate_nbf` field of `Validation`: a token's `nbf`
/// claim is checked, with the leeway.
#[verifier::external_body]
fn check_not_before(v: &mut Validation) {
    v.validate_nbf = true;
}

/// Relies on `DecodingKey::from_secret`: an HMAC key of the bytes.
#[verifier::external_body]
fn key_from_secret(secret: &Vec<u8>) -> DecodingKey {
    DecodingKey::from_secret(secret)
}

/// Relies on `DecodingKey::from_rsa_pem`: an RSA key, none when the PEM
/// text cannot be read.
#[verifier::external_body]
fn key_from_rsa_pem(pem: &Vec<u8>) -> Option<DecodingKey> {
    DecodingKey::from_rsa_pem(pem).ok()
}

/// Relies on `DecodingKey::from_jwk`: the key of a JWK, none when its
/// parameters cannot be read.
#[verifier::external_body]
fn key_from_jwk(jwk: &Jwk) -> Option<DecodingKey> {
    DecodingKey::from_jwk(jwk).ok()
}

/// Relies on `jsonwebtoken::decode`: the claims of a token whose signature,
/// expiry and configured claims check out; none otherwise. The outcome
/// depends on the clock. Every `Validation` built here has a leeway of at
/// most `MAX_LEEWAY` (see `set_leeway`), so the subtraction from the
/// current time inside `decode` cannot underflow.
#[verifier::external_body]
fn decode_claims(token: &str, key: &DecodingKey, validation: &Validation) -> Option<serde_json::Value> {
    jsonwebtoken::decode::<serde_json::Value>(token, key, validation).ok().map(|d| d.claims)
}

/// The largest clock leeway passed on, in seconds; a larger configured
/// leeway is cut to it.
pub const MAX_LEEWAY: u64 = 999_999_999;

/// What a token is checked against, as plain values.
#[derive(Debug)]
pub struct ValidationSettings {
    pub alg: JwtAlgorithm,
    pub issuer: Option<String>,
    pub audience: Option<String>,
    /// Clock leeway in seconds; `None` keeps jsonwebtoken's default.
    pub leeway: Option<u64>,
}

/// The leeway a configured value gives: none unless positive, at most
/// `MAX_LEEWAY`.
pub open spec fn leeway_of(configured: i64) -> Option<u64> {
    if configured <= 0 {
        None
    } else if configured > MAX_LEEWAY {
        Some(MAX_LEEWAY)
    } else {
        Some(configured as u64)
    }
}

/// A text setting: none when empty.
pub open spec fn non_empty(s: Seq<char>) -> Option<Seq<char>> {
    if s.len() > 0 {
        Some(s)
    } else {
        None
    }
}

/// The checks a token must pass under `config`: its algorithm, the issuer
/// and audience when set, the leeway when positive.
pub fn validation_settings(config: &JwtConfig) -> (r: ValidationSettings)
    ensures
        r.alg == config.alg,
        opt_view(r.issuer) == non_empty(config.issuer@),
        opt_view(r.audience) == non_empty(config.audience@),
        r.leeway == leeway_of(config.leeway),
{
    let issuer = if config.issuer.as_str().is_empty() {
        None
    } else {
        Some(config.issuer.clone())
    };
    let audience = if config.audience.as_str().is_empty() {
        None
    } else {
        Some(config.audience.clone())
    };
    let leeway = if config.leeway <= 0 {
        None
    } else if config.leeway as u64 > MAX_LEEWAY {
        Some(MAX_LEEWAY)
    } else {
        Some(config.leeway as u64)
    };
    ValidationSettings { alg: config.alg, issuer, audience, leeway }
}

/// jsonwebtoken's checks for `settings`, with `exp` and `nbf` both checked.
fn validation_of(settings: &ValidationSettings) -> Validation
    requires
        settings.leeway matches Some(l) ==> l <= MAX_LEEWAY,
{
    let mut validation = new_validation(settings.alg);
    check_not_before(&mut validation);
    match &settings.issuer {
        Some(issuer) => require_issuer(&mut validation, issuer.as_str()),
        None => {},
    }
    match &settings.audience {
        Some(audience) => require_audience(&mut validation, audience.as_str()),
        None => {},
    }
    match settings.leeway {
        Some(seconds) => set_leeway(&mut validation, seconds),
        None => {},
    }
    validation
}

/// The configured key: the secret of an HMAC algorithm, else RSA PEM text.
#[derive(Debug)]
pub enum KeyMaterial {
    Secret(Vec<u8>),
    RsaPem(Vec<u8>),
}

/// The key material of `config`: its key's UTF-8 bytes, a secret exactly
/// when the algorithm is an HMAC one.
pub fn key_material(config: &JwtConfig) -> (r: KeyMaterial)
    ensures
        match r {
            KeyMaterial::Secret(b) => hmac_alg(config.alg) && b@ == vstd::utf8::encode_utf8(config.public_key@),
            KeyMaterial::RsaPem(b) => !hmac_alg(config.alg) && b@ == vstd::utf8::encode_utf8(config.public_key@),
        },
{
    let bytes = vstd::slice::slice_to_vec(config.public_key.as_str().as_bytes());
    if is_hmac(config.alg) {
        KeyMaterial::Secret(bytes)
    } else {
        KeyMaterial::RsaPem(bytes)
    }
}

/// The decoding key of some key material; a secret always gives one.
pub fn decoding_key(material: &KeyMaterial) -> (r: Option<DecodingKey>)
    ensures
        material is Secret ==> r is Some,
{
    match material {
        KeyMaterial::Secret(b) => Some(key_from_secret(b)),
        KeyMaterial::RsaPem(b) => key_from_rsa_pem(b),
    }
}

/// The key id a token names: an unreadable header or one without `kid`
/// makes the token invalid.
pub fn key_id_of(header: Option<Option<String>>) -> (r: Result<String, AuthError>)
    ensures
        match header {
            Some(Some(k)) => (r matches Ok(s) && s@ == k@),
            _ => r == Err::<String, AuthError>(AuthError::InvalidToken),
        },
{
    match header {
        Some(Some(k)) => Ok(k),
        _ => Err(AuthError::InvalidToken),
    }
}

/// The key id named in a token's header.
pub fn token_key_id(token: &str) -> (r: Result<String, AuthError>)
    ensures
        match header_kid(token@) {
            Some(Some(k)) => (r matches Ok(s) && s@ == k),
            _ => r == Err::<String, AuthError>(AuthError::InvalidToken),
        },
{
    key_id_of(read_header_kid(token))
}

/// Whether a key id is `kid`.
pub open spec fn names_key(id: Option<String>, kid: Seq<char>) -> bool {
    match id {
        Some(k) => k@ == kid,
        None => false,
    }
}

/// The position of the first key whose id is `kid`.
pub fn find_key(key_ids: &Vec<Option<String>>, kid: &str) -> (r: Option<usize>)
    ensures
        match r {
            Some(i) => i < key_ids@.len() && names_key(key_ids@[i as int], kid@) && forall|j: int|
                0 <= j < i ==> !names_key(#[trigger] key_ids@[j], kid@),
            None => forall|j: int|
                0 <= j < key_ids@.len() ==> !names_key(#[trigger] key_ids@[j], kid@),
        },
{
    let mut i: usize = 0;
    while i < key_ids.len()
        invariant
            i <= key_ids@.len(),
            forall|j: int| 0 <= j < i ==> !names_key(#[trigger] key_ids@[j], kid@),
        decreases key_ids.len() - i,
    {
        match &key_ids[i] {
            Some(k) => {
                if str_eq(k.as_str(), kid) {
                    return Some(i);
                }
            },
            None => {},
        }
        i = i + 1;
    }
    None
}

/// Verifies a token with the key of a JWK: its claims, or `InvalidToken`.
pub fn verify_with_jwk(config: &JwtConfig, token: &str, jwk: &Jwk) -> (r: Result<
    serde_json::Value,
    AuthError,
>)
    ensures
        r is Err ==> r == Err::<serde_json::Value, AuthError>(AuthError::InvalidToken),
{
    let validation = validation_of(&validation_settings(config));
    match key_from_jwk(jwk) {
        Some(key) => match decode_claims(token, &key, &validation) {
            Some(claims) => Ok(claims),
            None => Err(AuthError::InvalidToken),
        },
        None => Err(AuthError::InvalidToken),
    }
}

/// Verifies a token with the configured secret (HMAC algorithms) or PEM
/// key (RSA algorithms): its claims, `InvalidToken`, or `ConfigMissing`
/// when no key is configured.
pub fn verify_with_static_key(config: &JwtConfig, token: &str) -> (r: Result<
    serde_json::Value,
    AuthError,
>)
    ensures
        config.public_key@.len() == 0 ==> r == Err::<serde_json::Value, AuthError>(
            AuthError::ConfigMissing,
        ),
        config.public_key@.len() > 0 && r is Err ==> r == Err::<serde_json::Value, AuthError>(
            AuthError::InvalidToken,
        ),
{
    if config.public_key.as_str().is_empty() {
        return Err(AuthError::ConfigMissing);
    }
    let validation = validation_of(&validation_settings(config));
    let key = match decoding_key(&key_material(config)) {
        Some(k) => k,
        None => {
            return Err(AuthError::InvalidToken);
        },
    };
    match decode_claims(token, &key, &validation) {
        Some(claims) => Ok(claims),
        None => Err(AuthError::InvalidToken),
    }
}

} // verus!
