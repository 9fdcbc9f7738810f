use bastion::http::Method;
use bastion::middleware::cache::{CacheMiddleware, CacheStep};
use bastion::middleware::chain::chain_position;
use bastion::middleware::cors::{CorsConfig, CorsDecision, CorsMiddleware};
use bastion::middleware::ip_filter::{IpAddress, IpFilterConfig, IpFilterMiddleware, IpFilterMode};
use bastion::middleware::jwt::{
    bearer_token, claims_from_fields, decoder_settings, AuthDecision, AuthStep, Claims, JsonField, JwtAlgorithm, JwtConfig, JwtMiddleware,
    JwtSecret,
};
use bastion::middleware::logging::LogMiddleware;
use bastion::middleware::request_validation::{
    RequestFacts, RequestValidationConfig, RequestValidationMiddleware, ValidationOutcome,
};
use bastion::sharded::ShardedLruCache;

fn v4(a: u8, b: u8, c: u8, d: u8) -> IpAddress {
    IpAddress::V4(u32::from_be_bytes([a, b, c, d]))
}

// ── JWT ──────────────────────────────────────

fn now_secs() -> u64 {
    std::time::SystemTime::now().duration_since(std::time::UNIX_EPOCH).unwrap().as_secs()
}

fn signed_token(secret: &str, sub: Option<&str>, role: Option<&str>, exp: u64) -> String {
    let mut m = serde_json::Map::new();
    if let Some(s) = sub {
        m.insert("sub".to_string(), serde_json::Value::from(s));
    }
    if let Some(r) = role {
        m.insert("role".to_string(), serde_json::Value::from(r));
    }
    m.insert("exp".to_string(), serde_json::Value::from(exp));
    jsonwebtoken::encode(
        &jsonwebtoken::Header::default(),
        &serde_json::Value::Object(m),
        &jsonwebtoken::EncodingKey::from_secret(secret.as_bytes()),
    )
    .unwrap()
}

#[test]
fn test_jwt_valid_token_forwards_claims() {
    let m = JwtMiddleware::new(JwtConfig::default());
    let exp = now_secs() + 3600;
    let token = signed_token("default-secret-change-me", Some("alice"), Some("admin"), exp);
    let claims = m.validate_token(&token).unwrap();
    assert_eq!(claims, Claims { sub: "alice".to_string(), role: "admin".to_string(), exp: exp as usize, iat: 0 });
    assert_eq!(
        m.authorize(Ok(claims)),
        AuthDecision::Forward { user_id: "alice".to_string(), role: "admin".to_string() }
    );
}

#[test]
fn test_jwt_role_defaults_to_empty() {
    let m = JwtMiddleware::new(JwtConfig::default());
    let token = signed_token("default-secret-change-me", Some("bob"), None, now_secs() + 600);
    let claims = m.validate_token(&token).unwrap();
    assert_eq!(claims.sub, "bob");
    assert_eq!(claims.role, "");
}

#[test]
fn test_jwt_expired_token_refused() {
    let m = JwtMiddleware::new(JwtConfig::default());
    let token = signed_token("default-secret-change-me", Some("alice"), None, now_secs() - 3600);
    let r = m.validate_token(&token);
    assert!(r.as_ref().unwrap_err().starts_with("JWT validation failed: "));
    assert_eq!(m.authorize(r), AuthDecision::Unauthorized);
}

#[test]
fn test_jwt_wrong_secret_refused() {
    let m = JwtMiddleware::new(JwtConfig::default());
    let token = signed_token("another-secret", Some("alice"), None, now_secs() + 3600);
    assert!(m.validate_token(&token).is_err());
}

#[test]
fn test_jwt_missing_sub_refused() {
    let m = JwtMiddleware::new(JwtConfig::default());
    let token = signed_token("default-secret-change-me", None, Some("admin"), now_secs() + 3600);
    assert!(m.validate_token(&token).unwrap_err().starts_with("JWT validation failed: "));
}

#[test]
fn test_jwt_garbage_token_refused() {
    let m = JwtMiddleware::new(JwtConfig::default());
    assert!(m.validate_token("not.a.token").is_err());
}

#[test]
fn test_jwt_bad_rsa_key_refuses() {
    let config = JwtConfig {
        secret: JwtSecret::Rsa("not a pem key".to_string()),
        skip_paths: vec![],
        algorithms: vec![JwtAlgorithm::RS256],
    };
    let m = JwtMiddleware::new(config);
    assert!(m.validate_token("a.b.c").unwrap_err().starts_with("Invalid RSA key: "));
}

#[test]
fn test_claims_from_fields_defaults() {
    let c = claims_from_fields(
        JsonField::Text("u1".to_string()),
        JsonField::Missing,
        JsonField::Number(Some(1700000000)),
        JsonField::Missing,
    )
    .unwrap();
    assert_eq!(c, Claims { sub: "u1".to_string(), role: String::new(), exp: 1700000000, iat: 0 });
}

#[test]
fn test_claims_from_fields_errors() {
    let num = || JsonField::Number(Some(5));
    assert_eq!(
        claims_from_fields(JsonField::Missing, JsonField::Missing, num(), JsonField::Missing),
        Err("missing field `sub`".to_string())
    );
    assert_eq!(
        claims_from_fields(JsonField::Other, JsonField::Missing, num(), JsonField::Missing),
        Err("invalid type for `sub`".to_string())
    );
    assert_eq!(
        claims_from_fields(JsonField::Text("u".to_string()), JsonField::Other, num(), JsonField::Missing),
        Err("invalid type for `role`".to_string())
    );
    assert_eq!(
        claims_from_fields(JsonField::Text("u".to_string()), JsonField::Missing, JsonField::Missing, JsonField::Missing),
        Err("missing field `exp`".to_string())
    );
    assert_eq!(
        claims_from_fields(JsonField::Text("u".to_string()), JsonField::Missing, JsonField::Number(None), JsonField::Missing),
        Err("invalid value for `exp`".to_string())
    );
    assert_eq!(
        claims_from_fields(JsonField::Text("u".to_string()), JsonField::Missing, num(), JsonField::Text("x".to_string())),
        Err("invalid value for `iat`".to_string())
    );
    assert_eq!(
        claims_from_fields(
            JsonField::Text("u".to_string()),
            JsonField::Text("r".to_string()),
            num(),
            JsonField::Number(Some(3))
        ),
        Ok(Claims { sub: "u".to_string(), role: "r".to_string(), exp: 5, iat: 3 })
    );
}

#[test]
fn test_jwt_skip_path_login() {
    let m = JwtMiddleware::new(JwtConfig::default());
    assert_eq!(m.begin("/login", None), AuthStep::Skip);
}

#[test]
fn test_jwt_skip_path_register() {
    let m = JwtMiddleware::new(JwtConfig::default());
    assert_eq!(m.begin("/register", None), AuthStep::Skip);
}

#[test]
fn test_jwt_skip_paths() {
    let m = JwtMiddleware::new(JwtConfig::default());
    assert_eq!(m.begin("/health/live", None), AuthStep::Skip);
    assert_eq!(m.name(), "jwt_auth");
    assert_eq!(m.priority(), 90);
}

#[test]
fn test_jwt_missing_token() {
    let m = JwtMiddleware::new(JwtConfig::default());
    assert_eq!(m.begin("/api/data", None), AuthStep::MissingToken);
    assert_eq!(m.begin("/api/data", Some("Basic abc")), AuthStep::MissingToken);
    assert_eq!(m.begin("/api/data", Some("Bearer abc.def")), AuthStep::Validate("abc.def".to_string()));
}

#[test]
fn test_bearer_token() {
    assert_eq!(bearer_token(Some("Bearer ")), Some(String::new()));
    assert_eq!(bearer_token(Some("bearer x")), None);
    assert_eq!(bearer_token(None), None);
}

#[test]
fn test_jwt_default_config() {
    let c = JwtConfig::default();
    match c.secret {
        JwtSecret::Hmac(k) => assert_eq!(k, "default-secret-change-me"),
        JwtSecret::Rsa(_) => panic!("expected an HMAC secret"),
    }
    assert_eq!(c.algorithms, vec![JwtAlgorithm::HS256]);
}

// ── CORS ─────────────────────────────────────

#[test]
fn test_cors_preflight_options() {
    let m = CorsMiddleware::new(CorsConfig::default());
    match m.decide("http://example.com", true) {
        CorsDecision::Preflight(h) => {
            assert_eq!(h.allow_origin, "*");
            assert_eq!(h.allow_methods, "GET, POST, PUT, DELETE, PATCH, OPTIONS");
            assert_eq!(h.allow_headers, "Content-Type, Authorization, X-Requested-With, Accept");
            assert_eq!(h.max_age, 86400);
            assert!(!h.allow_credentials);
        }
        other => panic!("expected a preflight answer, got {:?}", other),
    }
}

#[test]
fn test_cors_headers_on_normal_request() {
    let m = CorsMiddleware::new(CorsConfig::default());
    match m.decide("http://example.com", false) {
        CorsDecision::Forward(Some(h)) => assert_eq!(h.allow_origin, "*"),
        other => panic!("expected headers, got {:?}", other),
    }
}

#[test]
fn test_cors_disallowed_origin() {
    let config = CorsConfig { allowed_origins: vec!["http://trusted.com".to_string()], ..Default::default() };
    let m = CorsMiddleware::new(config);
    assert_eq!(m.decide("http://evil.com", false), CorsDecision::Forbidden);
    match m.decide("http://trusted.com", false) {
        CorsDecision::Forward(Some(h)) => assert_eq!(h.allow_origin, "http://trusted.com"),
        other => panic!("expected headers, got {:?}", other),
    }
    assert!(m.is_origin_allowed("http://trusted.com"));
    assert!(!m.is_origin_allowed("http://evil.com"));
}

#[test]
fn test_cors_no_origin_passthrough() {
    let config = CorsConfig { allowed_origins: vec!["http://trusted.com".to_string()], ..Default::default() };
    let m = CorsMiddleware::new(config);
    assert_eq!(m.decide("", false), CorsDecision::Forward(None));
}

// ── IP filter ────────────────────────────────

fn filter(mode: IpFilterMode, rules: &[&str], addrs: Vec<Option<IpAddress>>) -> IpFilterMiddleware {
    let config = IpFilterConfig { mode, rules: rules.iter().map(|r| r.to_string()).collect() };
    IpFilterMiddleware::new(config, &addrs)
}

#[test]
fn test_ip_whitelist_allowed() {
    let f = filter(IpFilterMode::Whitelist, &["127.0.0.1"], vec![Some(v4(127, 0, 0, 1))]);
    assert!(f.is_allowed(&v4(127, 0, 0, 1)));
}

#[test]
fn test_ip_whitelist_blocked() {
    let f = filter(
        IpFilterMode::Whitelist,
        &["10.0.0.1", "192.168.1.1"],
        vec![Some(v4(10, 0, 0, 1)), Some(v4(192, 168, 1, 1))],
    );
    assert!(!f.is_allowed(&v4(127, 0, 0, 1)));
}

#[test]
fn test_ip_blacklist_blocks() {
    let f = filter(IpFilterMode::Blacklist, &["127.0.0.1"], vec![Some(v4(127, 0, 0, 1))]);
    assert!(!f.is_allowed(&v4(127, 0, 0, 1)));
    assert!(f.is_allowed(&v4(127, 0, 0, 2)));
}

#[test]
fn test_ip_cidr_whitelist() {
    let f = filter(IpFilterMode::Whitelist, &["10.0.0.0/24"], vec![None]);
    assert!(f.is_allowed(&v4(10, 0, 0, 42)));
    assert_eq!(f.name(), "ip_filter");
}

#[test]
fn test_ip_cidr_outside_range() {
    let f = filter(IpFilterMode::Whitelist, &["10.0.0.0/24"], vec![None]);
    assert!(!f.is_allowed(&v4(10, 0, 1, 1)));
}

#[test]
fn test_ip_cidr_v6_and_family() {
    let f = filter(IpFilterMode::Whitelist, &["fd00::/8", "not an ip"], vec![None, None]);
    assert!(f.is_allowed(&IpAddress::V6(0xfd12u128 << 112)));
    assert!(!f.is_allowed(&v4(10, 0, 0, 1)));
    let all = filter(IpFilterMode::Whitelist, &["0.0.0.0/0"], vec![None]);
    assert!(all.is_allowed(&v4(8, 8, 8, 8)));
}

// ── Request validation ───────────────────────

fn facts<'a>(len: Option<&'a str>, te: Option<&'a str>, ct: Option<&'a str>) -> RequestFacts<'a> {
    RequestFacts { has_content_length: len.is_some(), content_length: len, transfer_encoding: te, content_type: ct }
}

#[test]
fn test_request_validation_body_too_large() {
    let m = RequestValidationMiddleware::new(RequestValidationConfig {
        max_body_size: Some(1024),
        required_content_types: vec![],
    });
    assert_eq!(m.check(&facts(Some("999999"), None, None)), ValidationOutcome::PayloadTooLarge);
}

#[test]
fn test_request_validation_body_within_limit() {
    let m = RequestValidationMiddleware::new(RequestValidationConfig {
        max_body_size: Some(10240),
        required_content_types: vec![],
    });
    assert_eq!(m.check(&facts(Some("10240"), None, None)), ValidationOutcome::Pass);
    assert_eq!(m.check(&facts(Some("+10241"), None, None)), ValidationOutcome::PayloadTooLarge);
    assert_eq!(m.check(&facts(Some("lots"), None, None)), ValidationOutcome::Pass);
    assert_eq!(m.check(&facts(None, None, None)), ValidationOutcome::Pass);
}

#[test]
fn test_request_validation_content_type() {
    let m = RequestValidationMiddleware::new(RequestValidationConfig {
        max_body_size: None,
        required_content_types: vec!["application/json".to_string()],
    });
    assert_eq!(
        m.check(&facts(Some("2"), None, Some("application/json; charset=utf-8"))),
        ValidationOutcome::Pass
    );
    assert_eq!(m.check(&facts(Some("2"), None, Some("text/plain"))), ValidationOutcome::UnsupportedMediaType);
    assert_eq!(m.check(&facts(None, Some("gzip, chunked"), None)), ValidationOutcome::UnsupportedMediaType);
    assert_eq!(m.check(&facts(None, None, Some("text/plain"))), ValidationOutcome::Pass);
    assert_eq!(RequestValidationConfig::default().max_body_size, Some(10 * 1024 * 1024));
}

// ── Cache ────────────────────────────────────

#[test]
fn test_cache_middleware_flow() {
    let mut m = CacheMiddleware::new(ShardedLruCache::new(4, 16, 0));
    let key = match m.begin(&Method::GET, "/items", None) {
        CacheStep::Miss(k) => k,
        other => panic!("expected a miss, got {:?}", other),
    };
    assert_eq!(key, "GET:/items");
    m.finish(key, 200, b"list".to_vec());
    match m.begin(&Method::GET, "/items", None) {
        CacheStep::Hit(body) => assert_eq!(body, b"list".to_vec()),
        other => panic!("expected a hit, got {:?}", other),
    }
    // no-cache skips the lookup
    assert!(matches!(m.begin(&Method::GET, "/items", Some("no-cache")), CacheStep::Miss(_)));
    // a write drops the cached GET
    assert!(matches!(m.begin(&Method::POST, "/items", None), CacheStep::Bypass));
    assert!(matches!(m.begin(&Method::GET, "/items", None), CacheStep::Miss(_)));
    // only 200 answers are stored
    m.finish("GET:/other".to_string(), 404, b"nope".to_vec());
    assert!(matches!(m.begin(&Method::GET, "/other", None), CacheStep::Miss(_)));
    assert!(matches!(m.begin(&Method::HEAD, "/other", None), CacheStep::Bypass));
}

// ── Chain order and the logger ───────────────

#[test]
fn test_chain_order() {
    let mut chain: Vec<i32> = Vec::new();
    for p in [100, 10, 95, -100, 100, 1000] {
        let k = chain_position(&chain, p);
        chain.insert(k, p);
    }
    assert_eq!(chain, vec![1000, 100, 100, 95, 10, -100]);
    let log = LogMiddleware::new();
    assert_eq!(log.name(), "logger");
    assert_eq!(log.priority(), -100);
}

#[test]
fn test_jwt_decoder_settings() {
    let config = JwtConfig {
        secret: JwtSecret::Hmac("k".to_string()),
        skip_paths: vec![],
        algorithms: vec![JwtAlgorithm::HS512, JwtAlgorithm::HS256],
    };
    let (alg, required) = decoder_settings(&config);
    assert_eq!(alg, JwtAlgorithm::HS512);
    assert_eq!(required, vec!["sub".to_string(), "exp".to_string()]);
}

#[test]
fn test_jwt_checks_with_first_algorithm() {
    // A token signed with HS256 is refused when HS512 is configured first.
    let config = JwtConfig {
        secret: JwtSecret::Hmac("default-secret-change-me".to_string()),
        skip_paths: vec![],
        algorithms: vec![JwtAlgorithm::HS512, JwtAlgorithm::HS256],
    };
    let m = JwtMiddleware::new(config);
    let token = signed_token("default-secret-change-me", Some("alice"), None, now_secs() + 3600);
    assert!(m.validate_token(&token).unwrap_err().starts_with("JWT validation failed: "));
}
