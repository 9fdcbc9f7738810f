//! Bearer-token authentication: which paths need a token, reading it from
//! the `Authorization` header, checking it with `jsonwebtoken`, and what a
//! checked token lets through.

use vstd::prelude::*;
use vstd::string::StringExecFns;
use crate::text::{starts_with, is_prefix};
use crate::middleware::cors::views;

verus! {

#[verifier::external_type_specification]
#[verifier::external_body]
pub struct ExDecodingKey(jsonwebtoken::DecodingKey);

#[verifier::external_type_specification]
#[verifier::external_body]
pub struct ExValidation(jsonwebtoken::Validation);

#[verifier::external_type_specification]
#[verifier::external_body]
pub struct ExJwtError(jsonwebtoken::errors::Error);

#[verifier::external_type_specification]
#[verifier::external_body]
pub struct ExJsonValue(serde_json::Value);

/// What a valid token says about its bearer.
#[derive(Debug, Clone, PartialEq, Eq)]
pub struct Claims {
    pub sub: String,
    pub role: String,
    pub exp: usize,
    pub iat: usize,
}

/// The key tokens are checked against.
#[derive(Clone, Debug)]
pub enum JwtSecret {
    /// A shared HMAC secret.
    Hmac(String),
    /// A PEM-encoded RSA public key.
    Rsa(String),
}

/// The signature algorithms a token may use.
#[derive(Clone, Copy, Debug, PartialEq, Eq, Structural)]
pub enum JwtAlgorithm {
    HS256,
    HS384,
    HS512,
    ES256,
    ES384,
    RS256,
    RS384,
    RS512,
    PS256,
    PS384,
    PS512,
    EdDSA,
}

/// Settings of token checks.
#[derive(Clone, Debug)]
pub struct JwtConfig {
    pub secret: JwtSecret,
    /// Paths (as prefixes) that need no token.
    pub skip_paths: Vec<String>,
    /// The first is the algorithm tokens are checked with.
    pub algorithms: Vec<JwtAlgorithm>,
}

impl Default for JwtConfig {
    fn default() -> (c: Self)
        ensures
            c.secret matches JwtSecret::Hmac(k) && k@ == "default-secret-change-me"@,
            views(c.skip_paths) == seq!["/login"@, "/register"@, "/health"@],
            c.algorithms@ == seq![JwtAlgorithm::HS256],
    {
        let c = JwtConfig {
            secret: JwtSecret::Hmac(String::from_str("default-secret-change-me")),
            skip_paths: vec![String::from_str("/login"), String::from_str("/register"), String::from_str("/health")],
            algorithms: vec![JwtAlgorithm::HS256],
        };
        proof {
            assert(views(c.skip_paths) =~= seq!["/login"@, "/register"@, "/health"@]);
            assert(c.algorithms@ =~= seq![JwtAlgorithm::HS256]);
        }
        c
    }
}

/// Whether `path` needs no token: a skip path is a prefix of it.
pub open spec fn skipped(skip: Seq<Seq<char>>, path: Seq<char>) -> bool {
    exists|i: int| 0 <= i < skip.len() && is_prefix(#[trigger] skip[i], path)
}

/// The token an `Authorization` header carries: what follows `Bearer `.
pub open spec fn bearer_spec(header: Option<Seq<char>>) -> Option<Seq<char>> {
    match header {
        Some(h) => if is_prefix("Bearer "@, h) {
            Some(h.skip(7))
        } else {
            None
        },
        None => None,
    }
}

/// What the check does first for a request.
#[derive(Clone, Debug, PartialEq, Eq)]
pub enum AuthStep {
    /// The path needs no token: forwarded.
    Skip,
    /// No bearer token: 401.
    MissingToken,
    /// This token is to be checked.
    Validate(String),
}

/// A token check.
pub struct JwtMiddleware {
    config: JwtConfig,
}

impl JwtMiddleware {
    /// The check's settings.
    pub closed spec fn config_spec(&self) -> JwtConfig {
        self.config
    }

    /// A check with these settings.
    pub fn new(config: JwtConfig) -> (m: Self)
        ensures
            m.config_spec() == config,
    {
        JwtMiddleware { config }
    }

    /// The check's settings.
    pub fn config(&self) -> (c: &JwtConfig)
        ensures
            *c == self.config_spec(),
    {
        &self.config
    }

    /// The middleware's name.
    pub fn name(&self) -> (n: &'static str)
        ensures
            n@ == "jwt_auth"@,
    {
        proof {
            reveal_strlit("jwt_auth");
        }
        "jwt_auth"
    }

    /// Its place in the chain: after the rate limiter, before the rest.
    pub fn priority(&self) -> (p: i32)
        ensures
            p == 90,
    {
        90
    }

    /// Whether `path` needs no token, as `skipped` says.
    pub fn should_skip(&self, path: &str) -> (b: bool)
        ensures
            b == skipped(views(self.config_spec().skip_paths), path@),
    {
        let mut i: usize = 0;
        while i < self.config.skip_paths.len()
            invariant
                i <= self.config.skip_paths@.len(),
                forall|j: int| 0 <= j < i ==> !is_prefix(#[trigger] views(self.config.skip_paths)[j], path@),
            decreases self.config.skip_paths@.len() - i,
        {
            if starts_with(path, self.config.skip_paths[i].as_str()) {
                proof {
                    assert(views(self.config.skip_paths)[i as int] == self.config.skip_paths@[i as int]@);
                }
                return true;
            }
            i = i + 1;
        }
        false
    }

    /// The first step for a request to `path` with this `Authorization`
    /// header (`None` when missing or not text): skipped paths pass; a header
    /// that is not `Bearer <token>` is refused; else the token is checked.
    pub fn begin(&self, path: &str, authorization: Option<&str>) -> (s: AuthStep)
        ensures
            skipped(views(self.config_spec().skip_paths), path@) ==> s == AuthStep::Skip,
            !skipped(views(self.config_spec().skip_paths), path@) ==> match bearer_spec(
                match authorization {
                    Some(h) => Some(h@),
                    None => None,
                },
            ) {
                Some(t) => s matches AuthStep::Validate(tok) && tok@ == t,
                None => s == AuthStep::MissingToken,
            },
    {
        if self.should_skip(path) {
            return AuthStep::Skip;
        }
        match bearer_token(authorization) {
            Some(t) => AuthStep::Validate(t),
            None => AuthStep::MissingToken,
        }
    }
}

/// The token an `Authorization` header carries, as `bearer_spec` says.
pub fn bearer_token(authorization: Option<&str>) -> (t: Option<String>)
    ensures
        match bearer_spec(
            match authorization {
                Some(h) => Some(h@),
                None => None,
            },
        ) {
            Some(v) => t matches Some(s) && s@ == v,
            None => t is None,
        },
{
    proof {
        reveal_strlit("Bearer ");
    }
    match authorization {
        Some(h) => if starts_with(h, "Bearer ") {
            Some(String::from_str(h.substring_char(7, h.unicode_len())))
        } else {
            None
        },
        None => None,
    }
}

/// A claim as the token's JSON holds it.
#[derive(Clone, Debug, PartialEq, Eq)]
pub enum JsonField {
    /// The claim is absent.
    Missing,
    /// A string.
    Text(String),
    /// A number: `Some` where it is a non-negative integer that fits `u64`.
    Number(Option<u64>),
    /// Any other JSON value.
    Other,
}

/// A claim that must be a string.
pub open spec fn text_value(f: JsonField) -> Option<Seq<char>> {
    match f {
        JsonField::Text(s) => Some(s@),
        _ => None,
    }
}

/// The `role` claim: a string, empty when absent.
pub open spec fn role_value(f: JsonField) -> Option<Seq<char>> {
    match f {
        JsonField::Missing => Some(Seq::empty()),
        JsonField::Text(s) => Some(s@),
        _ => None,
    }
}

/// A count claim (`exp`, `iat`): a non-negative integer that fits `usize`;
/// when absent, refused if `required`, else 0.
pub open spec fn count_value(f: JsonField, required: bool) -> Option<nat> {
    match f {
        JsonField::Number(Some(n)) => if n <= usize::MAX {
            Some(n as nat)
        } else {
            None
        },
        JsonField::Missing => if required {
            None
        } else {
            Some(0)
        },
        _ => None,
    }
}

/// Whether the four claims make `Claims`.
pub open spec fn claims_ok(sub: JsonField, role: JsonField, exp: JsonField, iat: JsonField) -> bool {
    &&& text_value(sub) is Some
    &&& role_value(role) is Some
    &&& count_value(exp, true) is Some
    &&& count_value(iat, false) is Some
}

/// Whether `c` is what the four claims make.
pub open spec fn claims_match(sub: JsonField, role: JsonField, exp: JsonField, iat: JsonField, c: Claims) -> bool {
    &&& text_value(sub) == Some(c.sub@)
    &&& role_value(role) == Some(c.role@)
    &&& count_value(exp, true) == Some(c.exp as nat)
    &&& count_value(iat, false) == Some(c.iat as nat)
}

/// Why the four claims make no `Claims`: the first claim that is wrong.
pub open spec fn claims_error(sub: JsonField, role: JsonField, exp: JsonField, iat: JsonField) -> Seq<char> {
    if text_value(sub) is None {
        if sub is Missing {
            "missing field `sub`"@
        } else {
            "invalid type for `sub`"@
        }
    } else if role_value(role) is None {
        "invalid type for `role`"@
    } else if count_value(exp, true) is None {
        if exp is Missing {
            "missing field `exp`"@
        } else {
            "invalid value for `exp`"@
        }
    } else {
        "invalid value for `iat`"@
    }
}

/// A count claim, as `count_value` says.
fn read_count(f: &JsonField, required: bool) -> (r: Option<usize>)
    ensures
        r is None <==> count_value(*f, required) is None,
        r matches Some(n) ==> count_value(*f, required) == Some(n as nat),
{
    match f {
        JsonField::Number(Some(n)) => if *n <= usize::MAX as u64 {
            Some(*n as usize)
        } else {
            None
        },
        JsonField::Missing => if required {
            None
        } else {
            Some(0)
        },
        _ => None,
    }
}

/// The claims a token's JSON holds under `sub`, `role`, `exp` and `iat`:
/// `sub` and `exp` are required, `role` defaults to empty and `iat` to 0.
pub fn claims_from_fields(sub: JsonField, role: JsonField, exp: JsonField, iat: JsonField) -> (r: Result<Claims, String>)
    ensures
        r is Ok <==> claims_ok(sub, role, exp, iat),
        r matches Ok(c) ==> claims_match(sub, role, exp, iat, c),
        r matches Err(m) ==> m@ == claims_error(sub, role, exp, iat),
{
    let exp_n = read_count(&exp, true);
    let iat_n = read_count(&iat, false);
    let sub_s = match sub {
        JsonField::Text(s) => s,
        JsonField::Missing => return Err(String::from_str("missing field `sub`")),
        _ => return Err(String::from_str("invalid type for `sub`")),
    };
    let role_s = match role {
        JsonField::Missing => String::new(),
        JsonField::Text(s) => s,
        _ => return Err(String::from_str("invalid type for `role`")),
    };
    let exp_v = match exp_n {
        Some(n) => n,
        None => {
            return match exp {
                JsonField::Missing => Err(String::from_str("missing field `exp`")),
                _ => Err(String::from_str("invalid value for `exp`")),
            };
        },
    };
    match iat_n {
        Some(n) => Ok(Claims { sub: sub_s, role: role_s, exp: exp_v, iat: n }),
        None => Err(String::from_str("invalid value for `iat`")),
    }
}

/// Whether `jsonwebtoken::DecodingKey::from_rsa_pem` accepts this text as
/// a PEM-encoded RSA key.
pub uninterp spec fn rsa_pem_accepted(pem: Seq<char>) -> bool;

/// `DecodingKey::from_secret`: the HMAC key made of the secret's bytes.  The
/// key is opaque here; nothing is stated of it.
#[verifier::external_body]
fn hmac_key(secret: &str) -> (k: jsonwebtoken::DecodingKey) {
    jsonwebtoken::DecodingKey::from_secret(secret.as_bytes())
}

/// `DecodingKey::from_rsa_pem`: a key from PEM text, which fails exactly
/// where `rsa_pem_accepted` does not hold (the text alone decides).
#[verifier::external_body]
fn rsa_key(pem: &str) -> (r: Result<jsonwebtoken::DecodingKey, jsonwebtoken::errors::Error>)
    ensures
        r is Ok <==> rsa_pem_accepted(pem@),
{
    jsonwebtoken::DecodingKey::from_rsa_pem(pem.as_bytes())
}

/// `Validation::new` with the algorithm of the same name: checks the
/// signature with `alg` and the expiry.  Opaque here; nothing is stated.
#[verifier::external_body]
fn validation_for(alg: JwtAlgorithm) -> (v: jsonwebtoken::Validation) {
    jsonwebtoken::Validation::new(match alg {
        JwtAlgorithm::HS256 => jsonwebtoken::Algorithm::HS256,
        JwtAlgorithm::HS384 => jsonwebtoken::Algorithm::HS384,
        JwtAlgorithm::HS512 => jsonwebtoken::Algorithm::HS512,
        JwtAlgorithm::ES256 => jsonwebtoken::Algorithm::ES256,
        JwtAlgorithm::ES384 => jsonwebtoken::Algorithm::ES384,
        JwtAlgorithm::RS256 => jsonwebtoken::Algorithm::RS256,
        JwtAlgorithm::RS384 => jsonwebtoken::Algorithm::RS384,
        JwtAlgorithm::RS512 => jsonwebtoken::Algorithm::RS512,
        JwtAlgorithm::PS256 => jsonwebtoken::Algorithm::PS256,
        JwtAlgorithm::PS384 => jsonwebtoken::Algorithm::PS384,
        JwtAlgorithm::PS512 => jsonwebtoken::Algorithm::PS512,
        JwtAlgorithm::EdDSA => jsonwebtoken::Algorithm::EdDSA,
    })
}

/// `Validation::set_required_spec_claims`: a token must carry each of
/// `names`.  The validation is opaque here; nothing is stated.
#[verifier::external_body]
fn require_claims(v: &mut jsonwebtoken::Validation, names: &Vec<String>) {
    v.set_required_spec_claims(names.as_slice())
}

/// `jsonwebtoken::decode` into JSON: the token's claims where its signature
/// and the validation's checks pass.  Whether a token passes depends on the
/// clock (expiry), so nothing is stated of the result.
#[verifier::external_body]
fn decode_claims(
    token: &str,
    key: &jsonwebtoken::DecodingKey,
    validation: &jsonwebtoken::Validation,
) -> (r: Result<serde_json::Value, jsonwebtoken::errors::Error>) {
    jsonwebtoken::decode::<serde_json::Value>(token, key, validation).map(|d| d.claims)
}

/// The error's text, as its `Display` writes it.  The error is opaque here;
/// nothing is stated of the text.
#[verifier::external_body]
fn error_text(e: &jsonwebtoken::errors::Error) -> (t: String) {
    e.to_string()
}

/// `serde_json::Value::get`: what the claims object holds under `name`,
/// told apart by kind.  The JSON is opaque here; nothing is stated.
#[verifier::external_body]
fn claim_field(claims: &serde_json::Value, name: &str) -> (f: JsonField) {
    match claims.get(name) {
        None => JsonField::Missing,
        Some(serde_json::Value::String(s)) => JsonField::Text(s.clone()),
        Some(serde_json::Value::Number(n)) => JsonField::Number(n.as_u64()),
        Some(_) => JsonField::Other,
    }
}

/// What a checked token decides.
#[derive(Clone, Debug, PartialEq, Eq)]
pub enum AuthDecision {
    /// Forwarded, with the bearer's id and role passed upstream.
    Forward { user_id: String, role: String },
    /// Refused: 401.
    Unauthorized,
}

/// The text `prefix` followed by `rest`.
fn joined(prefix: &str, rest: &str) -> (s: String)
    ensures
        s@ == prefix@ + rest@,
{
    String::from_str(prefix).concat(rest)
}

/// The text `prefix` followed by `rest`, which starts with `prefix`.
fn prefixed(prefix: &str, rest: &str) -> (s: String)
    ensures
        s@ == prefix@ + rest@,
        is_prefix(prefix@, s@),
{
    let s = joined(prefix, rest);
    proof {
        assert(s@.take(prefix@.len() as int) =~= prefix@);
    }
    s
}

/// What the decoder is handed for configuration `c`: the first configured
/// algorithm, and the claims every token must carry, `sub` and `exp`.
pub fn decoder_settings(c: &JwtConfig) -> (r: (JwtAlgorithm, Vec<String>))
    requires
        c.algorithms@.len() > 0,
    ensures
        r.0 == c.algorithms@[0],
        views(r.1) == seq!["sub"@, "exp"@],
{
    let required = vec![String::from_str("sub"), String::from_str("exp")];
    proof {
        assert(views(required) =~= seq!["sub"@, "exp"@]);
    }
    (c.algorithms[0], required)
}

impl JwtMiddleware {
    /// Checks `token` against the configured key with the settings that
    /// `decoder_settings` gives (the first configured algorithm; `sub` and
    /// `exp` required), and reads its claims.  An RSA key that does not parse
    /// refuses every token with `Invalid RSA key: ..`; every other refusal
    /// reads `JWT validation failed: ..`.
    pub fn validate_token(&self, token: &str) -> (r: Result<Claims, String>)
        requires
            self.config_spec().algorithms@.len() > 0,
        ensures
            (self.config_spec().secret matches JwtSecret::Rsa(pem) && !rsa_pem_accepted(pem@)) ==> r is Err,
            r matches Err(m) ==> if (self.config_spec().secret matches JwtSecret::Rsa(pem) && !rsa_pem_accepted(
                pem@,
            )) {
                is_prefix("Invalid RSA key: "@, m@)
            } else {
                is_prefix("JWT validation failed: "@, m@)
            },
            r matches Ok(c) ==> exists|s: JsonField, ro: JsonField, e: JsonField, i: JsonField|
                #[trigger] claims_match(s, ro, e, i, c),
    {
        let (alg, required) = decoder_settings(&self.config);
        let mut validation = validation_for(alg);
        require_claims(&mut validation, &required);
        let key = match &self.config.secret {
            JwtSecret::Hmac(secret) => hmac_key(secret.as_str()),
            JwtSecret::Rsa(pem) => match rsa_key(pem.as_str()) {
                Ok(k) => k,
                Err(e) => return Err(prefixed("Invalid RSA key: ", error_text(&e).as_str())),
            },
        };
        match decode_claims(token, &key, &validation) {
            Ok(claims) => {
                let sub = claim_field(&claims, "sub");
                let role = claim_field(&claims, "role");
                let exp = claim_field(&claims, "exp");
                let iat = claim_field(&claims, "iat");
                match claims_from_fields(sub, role, exp, iat) {
                    Ok(c) => Ok(c),
                    Err(m) => Err(prefixed("JWT validation failed: ", m.as_str())),
                }
            },
            Err(e) => Err(prefixed("JWT validation failed: ", error_text(&e).as_str())),
        }
    }

    /// What a token check decides: valid claims forward the request with the
    /// bearer's `sub` and `role`; a refused token gets 401.
    pub fn authorize(&self, validated: Result<Claims, String>) -> (d: AuthDecision)
        ensures
            match validated {
                Ok(c) => d matches AuthDecision::Forward { user_id, role } && user_id@ == c.sub@ && role@
                    == c.role@,
                Err(_) => d is Unauthorized,
            },
    {
        match validated {
            Ok(c) => AuthDecision::Forward { user_id: c.sub, role: c.role },
            Err(_) => AuthDecision::Unauthorized,
        }
    }
}

} // verus!
