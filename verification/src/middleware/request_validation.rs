//! Request checks on the body: its declared size and its content type.

use vstd::prelude::*;
use crate::text::{parse_u64, parse_u64_spec, starts_with, is_prefix, contains_str, has_sub};
use crate::middleware::cors::views;

verus! {

/// Settings of request checks.
#[derive(Clone, Debug)]
pub struct RequestValidationConfig {
    /// The largest declared body size let through, in bytes.
    pub max_body_size: Option<u64>,
    /// Content types a request with a body must have (one of them as a
    /// prefix); none means any.
    pub required_content_types: Vec<String>,
}

impl Default for RequestValidationConfig {
    fn default() -> (c: Self)
        ensures
            c.max_body_size == Some(10_485_760u64),
            c.required_content_types@.len() == 0,
    {
        RequestValidationConfig { max_body_size: Some(10 * 1024 * 1024), required_content_types: Vec::new() }
    }
}

/// The parts of a request the checks read.  A header that is missing, or
/// whose value is not text, is `None`.
pub struct RequestFacts<'a> {
    /// Whether a `Content-Length` header is present (text or not).
    pub has_content_length: bool,
    pub content_length: Option<&'a str>,
    pub transfer_encoding: Option<&'a str>,
    pub content_type: Option<&'a str>,
}

/// What the checks decide.
#[derive(Clone, Copy, Debug, PartialEq, Eq, Structural)]
pub enum ValidationOutcome {
    /// The declared body is too large: 413.
    PayloadTooLarge,
    /// The body's content type is not one required: 415.
    UnsupportedMediaType,
    /// Forwarded.
    Pass,
}

/// The text a header holds, or the empty text.
pub open spec fn text_or_empty(h: Option<&str>) -> Seq<char> {
    match h {
        Some(v) => v@,
        None => Seq::empty(),
    }
}

/// Whether the body is declared (as a number) larger than the limit.
pub open spec fn too_large(cfg: RequestValidationConfig, f: RequestFacts) -> bool {
    match (cfg.max_body_size, f.content_length) {
        (Some(max), Some(v)) => match parse_u64_spec(v@) {
            Some(n) => n > max,
            None => false,
        },
        _ => false,
    }
}

/// Whether the request has a body: a `Content-Length`, or a chunked
/// transfer encoding.
pub open spec fn has_body(f: RequestFacts) -> bool {
    f.has_content_length || has_sub(text_or_empty(f.transfer_encoding), "chunked"@)
}

/// What the checks decide: a body declared (as a number) larger than the
/// limit is refused; then, when content types are required and the request
/// has a body, a content type that starts with none of them is refused.
pub open spec fn validation_spec(cfg: RequestValidationConfig, f: RequestFacts) -> ValidationOutcome {
    let types = views(cfg.required_content_types);
    let has_body = has_body(f);
    let ct = text_or_empty(f.content_type);
    if too_large(cfg, f) {
        ValidationOutcome::PayloadTooLarge
    } else if types.len() > 0 && has_body && !(exists|i: int| 0 <= i < types.len() && is_prefix(#[trigger] types[i], ct)) {
        ValidationOutcome::UnsupportedMediaType
    } else {
        ValidationOutcome::Pass
    }
}

/// The body checks.
pub struct RequestValidationMiddleware {
    config: RequestValidationConfig,
}

impl RequestValidationMiddleware {
    /// The checks' settings.
    pub closed spec fn config_spec(&self) -> RequestValidationConfig {
        self.config
    }

    /// Checks with these settings.
    pub fn new(config: RequestValidationConfig) -> (m: Self)
        ensures
            m.config_spec() == config,
    {
        RequestValidationMiddleware { config }
    }

    /// The middleware's name.
    pub fn name(&self) -> (n: &'static str)
        ensures
            n@ == "request_validation"@,
    {
        proof {
            reveal_strlit("request_validation");
        }
        "request_validation"
    }

    /// Its place in the chain.
    pub fn priority(&self) -> (p: i32)
        ensures
            p == 85,
    {
        85
    }

    /// Decides for a request, as `validation_spec` says.
    pub fn check(&self, f: &RequestFacts) -> (o: ValidationOutcome)
        ensures
            o == validation_spec(self.config_spec(), *f),
    {
        if let Some(max) = self.config.max_body_size {
            if let Some(v) = f.content_length {
                if let Some(n) = parse_u64(v) {
                    if n > max {
                        return ValidationOutcome::PayloadTooLarge;
                    }
                }
            }
        }
        let types = &self.config.required_content_types;
        if types.len() > 0 {
            let chunked = match f.transfer_encoding {
                Some(te) => contains_str(te, "chunked"),
                None => false,
            };
            proof {
                reveal_strlit("chunked");
                if f.transfer_encoding is None {
                    assert(!has_sub(Seq::<char>::empty(), "chunked"@)) by {
                        assert forall|i: int| !crate::text::occurs_at(Seq::<char>::empty(), "chunked"@, i) by {}
                    }
                }
            }
            if f.has_content_length || chunked {
                let ct: &str = match f.content_type {
                    Some(c) => c,
                    None => "",
                };
                proof {
                    reveal_strlit("");
                    assert(has_body(*f));
                    assert(!too_large(self.config, *f));
                }
                let mut i: usize = 0;
                while i < types.len()
                    invariant
                        i <= types@.len(),
                        types == &self.config.required_content_types,
                        ct@ == text_or_empty(f.content_type),
                        forall|j: int| 0 <= j < i ==> !is_prefix(#[trigger] views(*types)[j], ct@),
                        !too_large(self.config, *f),
                        has_body(*f),
                        types@.len() > 0,
                    decreases types@.len() - i,
                {
                    if starts_with(ct, types[i].as_str()) {
                        proof {
                            assert(views(*types)[i as int] == types@[i as int]@);
                        }
                        return ValidationOutcome::Pass;
                    }
                    i = i + 1;
                }
                return ValidationOutcome::UnsupportedMediaType;
            }
        }
        ValidationOutcome::Pass
    }
}

} // verus!
