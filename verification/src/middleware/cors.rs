//! Cross-origin requests: which origins may call, and the headers that say so.

use vstd::prelude::*;
use vstd::string::StringExecFns;
use crate::text::{join, join_spec, strings_view};

verus! {

/// Settings of cross-origin checks.
#[derive(Clone, Debug)]
pub struct CorsConfig {
    /// Origins let in; `*` lets any in.
    pub allowed_origins: Vec<String>,
    pub allowed_methods: Vec<String>,
    pub allowed_headers: Vec<String>,
    /// How long a browser may keep a preflight answer, in seconds.
    pub max_age: u64,
    pub allow_credentials: bool,
}

/// The strings of `v`, as values.
pub open spec fn views(v: Vec<String>) -> Seq<Seq<char>> {
    strings_view(v@)
}

impl Default for CorsConfig {
    fn default() -> (c: Self)
        ensures
            views(c.allowed_origins) == seq!["*"@],
            views(c.allowed_methods) == seq!["GET"@, "POST"@, "PUT"@, "DELETE"@, "PATCH"@, "OPTIONS"@],
            views(c.allowed_headers) == seq![
                "Content-Type"@,
                "Authorization"@,
                "X-Requested-With"@,
                "Accept"@,
            ],
            c.max_age == 86400,
            !c.allow_credentials,
    {
        let c = CorsConfig {
            allowed_origins: vec![String::from_str("*")],
            allowed_methods: vec![
                String::from_str("GET"),
                String::from_str("POST"),
                String::from_str("PUT"),
                String::from_str("DELETE"),
                String::from_str("PATCH"),
                String::from_str("OPTIONS"),
            ],
            allowed_headers: vec![
                String::from_str("Content-Type"),
                String::from_str("Authorization"),
                String::from_str("X-Requested-With"),
                String::from_str("Accept"),
            ],
            max_age: 86400,
            allow_credentials: false,
        };
        proof {
            assert(views(c.allowed_origins) =~= seq!["*"@]);
            assert(views(c.allowed_methods) =~= seq!["GET"@, "POST"@, "PUT"@, "DELETE"@, "PATCH"@, "OPTIONS"@]);
            assert(views(c.allowed_headers) =~= seq![
                "Content-Type"@,
                "Authorization"@,
                "X-Requested-With"@,
                "Accept"@,
            ]);
        }
        c
    }
}

/// Whether `origin` may call: some allowed origin is `*` or is it.
pub open spec fn origin_allowed(allowed: Seq<Seq<char>>, origin: Seq<char>) -> bool {
    exists|i: int| 0 <= i < allowed.len() && (#[trigger] allowed[i] == "*"@ || allowed[i] == origin)
}

/// The cross-origin headers put on a response.
#[derive(Clone, Debug, PartialEq, Eq)]
pub struct CorsHeaders {
    /// `Access-Control-Allow-Origin`.
    pub allow_origin: String,
    /// `Access-Control-Allow-Methods`.
    pub allow_methods: String,
    /// `Access-Control-Allow-Headers`.
    pub allow_headers: String,
    /// `Access-Control-Max-Age`.
    pub max_age: u64,
    /// Whether `Access-Control-Allow-Credentials: true` is added.
    pub allow_credentials: bool,
}

/// Whether `h` are the headers for a response to `origin` under `cfg`: the
/// origin itself, or `*` when any origin is let in; the allowed methods and
/// headers joined by `, `; the max age; and whether credentials are allowed.
pub open spec fn headers_for(cfg: CorsConfig, origin: Seq<char>, h: CorsHeaders) -> bool {
    &&& h.allow_origin@ == (if views(cfg.allowed_origins).contains("*"@) {
        "*"@
    } else {
        origin
    })
    &&& h.allow_methods@ == join_spec(views(cfg.allowed_methods), ", "@)
    &&& h.allow_headers@ == join_spec(views(cfg.allowed_headers), ", "@)
    &&& h.max_age == cfg.max_age
    &&& h.allow_credentials == cfg.allow_credentials
}

/// What the check decides for a request.
#[derive(Clone, Debug, PartialEq, Eq)]
pub enum CorsDecision {
    /// The origin is not let in: 403.
    Forbidden,
    /// A preflight (`OPTIONS`): answered at once with 204 and these headers.
    Preflight(CorsHeaders),
    /// Forwarded; the response gets these headers when the request named an
    /// origin.
    Forward(Option<CorsHeaders>),
}

/// A cross-origin check.
pub struct CorsMiddleware {
    config: CorsConfig,
}

impl CorsMiddleware {
    /// The check's settings.
    pub closed spec fn config_spec(&self) -> CorsConfig {
        self.config
    }

    /// A check with these settings.
    pub fn new(config: CorsConfig) -> (m: Self)
        ensures
            m.config_spec() == config,
    {
        CorsMiddleware { config }
    }

    /// The middleware's name.
    pub fn name(&self) -> (n: &'static str)
        ensures
            n@ == "cors"@,
    {
        proof {
            reveal_strlit("cors");
        }
        "cors"
    }

    /// Its place in the chain: very early, before authentication.
    pub fn priority(&self) -> (p: i32)
        ensures
            p == 95,
    {
        95
    }

    /// Whether `origin` may call, as `origin_allowed` says.
    pub fn is_origin_allowed(&self, origin: &str) -> (b: bool)
        ensures
            b == origin_allowed(views(self.config_spec().allowed_origins), origin@),
    {
        let star = String::from_str("*");
        let o = String::from_str(origin);
        proof {
            reveal_strlit("*");
        }
        let mut i: usize = 0;
        while i < self.config.allowed_origins.len()
            invariant
                i <= self.config.allowed_origins@.len(),
                star@ == "*"@,
                o@ == origin@,
                forall|j: int|
                    0 <= j < i ==> !(views(self.config.allowed_origins)[j] == "*"@ || views(
                        self.config.allowed_origins,
                    )[j] == origin@),
            decreases self.config.allowed_origins@.len() - i,
        {
            let a = &self.config.allowed_origins[i];
            if a.eq(&star) || a.eq(&o) {
                proof {
                    assert(views(self.config.allowed_origins)[i as int] == a@);
                }
                return true;
            }
            i = i + 1;
        }
        false
    }

    /// Whether the allowed origins hold `*`.
    fn allows_any(&self) -> (b: bool)
        ensures
            b == views(self.config_spec().allowed_origins).contains("*"@),
    {
        let star = String::from_str("*");
        proof {
            reveal_strlit("*");
        }
        let mut i: usize = 0;
        while i < self.config.allowed_origins.len()
            invariant
                i <= self.config.allowed_origins@.len(),
                star@ == "*"@,
                forall|j: int| 0 <= j < i ==> views(self.config.allowed_origins)[j] != "*"@,
            decreases self.config.allowed_origins@.len() - i,
        {
            if self.config.allowed_origins[i].eq(&star) {
                proof {
                    assert(views(self.config.allowed_origins)[i as int] == "*"@);
                }
                return true;
            }
            i = i + 1;
        }
        false
    }

    /// The headers for a response to `origin`, as `headers_for` says.
    pub fn cors_headers(&self, origin: &str) -> (h: CorsHeaders)
        ensures
            headers_for(self.config_spec(), origin@, h),
    {
        proof {
            reveal_strlit("*");
        }
        let allow_origin = if self.allows_any() {
            String::from_str("*")
        } else {
            String::from_str(origin)
        };
        CorsHeaders {
            allow_origin,
            allow_methods: join(&self.config.allowed_methods, ", "),
            allow_headers: join(&self.config.allowed_headers, ", "),
            max_age: self.config.max_age,
            allow_credentials: self.config.allow_credentials,
        }
    }

    /// Decides for a request with this `Origin` header (empty when it has
    /// none, or one that is not text): an origin that is named and not let in
    /// is refused; a preflight is answered with the headers; any other request
    /// is forwarded, with the headers when an origin was named.
    pub fn decide(&self, origin: &str, is_options: bool) -> (d: CorsDecision)
        ensures
            origin@.len() > 0 && !origin_allowed(views(self.config_spec().allowed_origins), origin@)
                ==> d == CorsDecision::Forbidden,
            !(origin@.len() > 0 && !origin_allowed(views(self.config_spec().allowed_origins), origin@))
                ==> if is_options {
                d matches CorsDecision::Preflight(h) && headers_for(self.config_spec(), origin@, h)
            } else {
                d matches CorsDecision::Forward(oh) && (match oh {
                    Some(h) => origin@.len() > 0 && headers_for(self.config_spec(), origin@, h),
                    None => origin@.len() == 0,
                })
            },
    {
        let named = origin.unicode_len() > 0;
        if named && !self.is_origin_allowed(origin) {
            return CorsDecision::Forbidden;
        }
        if is_options {
            return CorsDecision::Preflight(self.cors_headers(origin));
        }
        if named {
            CorsDecision::Forward(Some(self.cors_headers(origin)))
        } else {
            CorsDecision::Forward(None)
        }
    }
}


/// Every listed origin is let in, wherever it stands in the list, and so is
/// every origin when `*` is listed anywhere.
pub proof fn law_listed_origin_allowed(allowed: Seq<Seq<char>>, origin: Seq<char>, i: int)
    requires
        0 <= i < allowed.len(),
        allowed[i] == origin || allowed[i] == "*"@,
    ensures
        origin_allowed(allowed, origin),
{
}

/// Joining two lists of allowed origins lets in exactly what either lets
/// in; an empty list lets in nothing.
pub proof fn law_origin_lists_join(a: Seq<Seq<char>>, b: Seq<Seq<char>>, origin: Seq<char>)
    ensures
        origin_allowed(a + b, origin) <==> origin_allowed(a, origin) || origin_allowed(b, origin),
        !origin_allowed(Seq::empty(), origin),
{
    if origin_allowed(a + b, origin) {
        let i = choose|i: int| 0 <= i < (a + b).len() && (#[trigger] (a + b)[i] == "*"@ || (a + b)[i] == origin);
        if i < a.len() {
            assert(a[i] == (a + b)[i]);
        } else {
            assert(b[i - a.len()] == (a + b)[i]);
        }
    }
    if origin_allowed(a, origin) {
        let i = choose|i: int| 0 <= i < a.len() && (#[trigger] a[i] == "*"@ || a[i] == origin);
        assert((a + b)[i] == a[i]);
    }
    if origin_allowed(b, origin) {
        let i = choose|i: int| 0 <= i < b.len() && (#[trigger] b[i] == "*"@ || b[i] == origin);
        assert((a + b)[i + a.len()] == b[i]);
    }
}

} // verus!
